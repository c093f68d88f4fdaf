//! Binder IPC: payloads, transactions, references and loopers.
//!
//! What passes between a process and the binder driver is bytes, and what a process has to do
//! about them are decisions over a handful of tables. Both are here: the layout of the driver's
//! structures ([`wire`], [`sys`], [`layout`], [`command`]), payloads ([`payload`]) and the
//! services that they hold ([`services`]), the objects and references of a device ([`device`],
//! [`binder_object`], [`refcount`]), sending ([`transact`]) and receiving ([`looper`]). What the
//! operations come to is stated of their arguments and results in [`operations`],
//! [`table_operations`], [`byte_operations`] and [`small_operations`]. Opening devices, mapping
//! memory, running threads and awaiting handlers is left to the program around the library.
pub mod binder_object;
pub mod binder_ports;
pub mod binder_ref;
pub mod binder_thread;
pub mod byte_operations;
pub mod command;
pub mod device;
pub mod error;
pub mod fs;
pub mod layout;
pub mod looper;
pub mod object;
pub mod operations;
pub mod payload;
pub mod refcount;
pub mod services;
pub mod small_operations;
pub mod sys;
pub mod table_operations;
pub mod tables;
pub mod test_pool;
pub mod text;
pub mod transact;
pub mod transaction;
pub mod wire;
