//! Verified core of a bridge between a federated custodial-protocol client and
//! the application around it.
//!
//! * [`storage`] is the transactional snapshot store that backs the client:
//!   a [`mirror`] of its key-value state in memory, ordered by [`keys`], and
//!   the blob of [`codec`] that holds the whole state in durable storage.
//! * [`lifecycle`] reconciles the states that the [`flows`] of payments and
//!   deposits report into messages for the user interface and updates of
//!   durable records; [`preimage`] reads the proof of a payment.
//! * [`gateway`] chooses the lightning gateway that routes a payment.
//! * [`client`] decides the steps in which a client is constructed.
//!
//! The library decides and computes; it does no input or output. Where the
//! outcome of something outside is needed, the library names the step to take
//! and is told how it went.

pub mod client;
pub mod codec;
pub mod flows;
pub mod gateway;
pub mod keys;
pub mod lifecycle;
pub mod mirror;
pub mod preimage;
pub mod storage;
