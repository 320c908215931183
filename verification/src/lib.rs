//! Client-side core for a live-updated list of scored entities ("books").
//!
//! The library holds the parts of such a client that carry real logic:
//! the reconnect backoff policy, the socket session state machine, the
//! subscription protocol codec, and the entity store reducer. Transport,
//! timers and rendering are left to the host, which drives the session
//! by feeding it events and performing the actions it returns.

pub mod backoff;
pub mod store;
pub mod json;
pub mod codec;
pub mod session;
pub mod clock;
