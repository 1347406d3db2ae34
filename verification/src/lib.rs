//! A transaction abstraction for master-mode I2C buses.
//!
//! A caller describes an ordered sequence of read and write steps against one
//! device address and has them executed as a single bus transaction. The
//! payload of a write step is supplied lazily, one byte at a time, by a
//! [`source::ByteSource`], so it never has to exist as one contiguous buffer.
//!
//! The contract of a transaction is stated over a ghost log of bus events
//! ([`bus::BusEvent`]): which bytes were transmitted to and received from the
//! device, and in what order. The blocking executor and the cooperative
//! (suspension-point) executor are both specified against the same semantics,
//! so the two scheduling flavors cannot diverge.

pub mod bus;
pub mod operation;
pub mod reply;
pub mod scripted;
pub mod source;
