//! A virtio console device that carries bytes between virtual machines.
//!
//! The guest's driver sees a register file ([`state`]) and two virtqueues
//! ([`queue`]). What it sends goes to ring buffers ([`ring`]) that its VM
//! shares with other VMs ([`connection`]), and what other VMs have put into
//! their rings comes in through the receive queue.
//!
//! The device does not touch memory itself. While it moves data it asks for one
//! access at a time ([`request`]), remembers where it stands ([`phase`]) and
//! goes on with the answer ([`transfer`], [`console`]).
//!
//! The modules whose names end in `laws` state what follows from this over
//! several accesses, for the most part of a host whose memory nobody else
//! touches ([`world`]). Those on whole runs ([`tx_run_laws`], [`rx_run_laws`],
//! [`vm_laws`]) say which rings, queues and buffers must not overlap ([`areas`]).
//! What a single turn reads and writes is stated of bytes and numbers alone
//! ([`memory_laws`]), and so are the registers ([`register_laws`]).
pub mod areas;
pub mod bits;
pub mod config;
pub mod connection;
pub mod console;
pub mod console_laws;
pub mod memory_laws;
pub mod phase;
pub mod queue;
pub mod queue_laws;
pub mod register_laws;
pub mod request;
pub mod ring;
pub mod ring_laws;
pub mod rx_laws;
pub mod rx_run_laws;
pub mod safety_laws;
pub mod state;
pub mod transfer;
pub mod tx_laws;
pub mod tx_run_laws;
pub mod used_laws;
pub mod vm_laws;
pub mod world;

pub use crate::console::VirtioConsole;
