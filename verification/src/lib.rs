//! Message routing for a relay chain.
//!
//! The router keeps, for every para, the messages that it has sent up to the relay chain and
//! that still wait to be dispatched, decides whether a candidate may send more of them, appends
//! what an accepted candidate sent, spends a bounded amount of weight on dispatching what waits,
//! and forgets everything about a para that leaves at the end of a session.
//!
//! - [`primitives`]: identifiers and messages.
//! - [`configuration`]: the limits that the chain is configured with.
//! - [`weights`]: the weight of database accesses.
//! - [`sorted`]: ascending lists of paras.
//! - [`storage`]: a map from paras to values.
//! - [`xcm`]: what an upward message decodes to.
//! - [`router`]: the storage of the router and the operations on it.
//! - [`laws`]: what the operations keep and how they relate to each other.
pub mod configuration;
pub mod primitives;
pub mod sorted;
pub mod storage;
pub mod weights;
pub mod xcm;
pub mod router;
pub mod laws;
