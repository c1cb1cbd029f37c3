//! A call-site-keyed hook runtime for a single-threaded component UI,
//! specialized around asynchronous data fetching.
//!
//! The crate provides these cooperating pieces:
//!
//! * a keyed hook-state store ([`store`]) that persists per-call-site state
//!   across repeated synchronous re-renders,
//! * the fetch lifecycle state machine ([`status`]),
//! * a re-entrancy-safe deferred-dispatch scheduler and the fetch hooks built
//!   on it ([`runtime`]), modelled as an explicit task queue drained by a
//!   single-threaded event loop, and
//! * a canonical JSON codec ([`json`]) for the request and response shapes the
//!   hooks exchange with a transport, and on top of them
//! * a query/list composition ([`list`]): fetch, unwrap the envelope,
//!   populate an ordered list, as one call.
//!
//! All shared state lives in an explicitly constructed [`runtime::Runtime`]
//! context object; the host drives the event loop and performs the actual
//! network transfers, feeding their outcomes back in as plain values.

pub mod fetch;
pub mod json;
pub mod list;
pub mod runtime;
pub mod status;
pub mod store;
