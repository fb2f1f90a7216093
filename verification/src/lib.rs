//! An actor-style message-passing runtime: independently scheduled
//! "loopers", each owning a private mailbox, exchange typed messages
//! through location-addressable handles ("messengers").  One
//! distinguished looper, the application, owns the process-wide shared
//! state and acts as the coordination root.
//!
//! The transport is an in-process port registry: an ordered,
//! capacity-bounded, multi-producer mailbox per looper.  Scheduling is
//! deterministic and cooperative: `Application::run` drives the root
//! looper and every registered child looper on the calling thread, so
//! every delivery order stated in the contracts is exact.

pub mod application;
pub mod errors;
pub mod looper;
pub mod message;
pub mod messenger;
pub mod ports;
