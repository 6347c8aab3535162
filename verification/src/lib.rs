//! A trace-driven conformance harness. A trace scripts the commands to send
//! to an extension host and what each response is expected to be; an
//! expectation may hold wildcard markers that accept anything at their
//! place. The library holds the trace model and its loader, the synthesizer
//! that answers the host's queries from recorded mock responses, the
//! validator with its diff, and the sequencer that drives a trace.

pub mod access;
pub mod batch;
pub mod command;
pub mod diff;
pub mod json;
pub mod loader;
pub mod mock;
pub mod nulls;
pub mod number;
pub mod path;
pub mod sanitize;
pub mod sequencer;
pub mod text;
pub mod trace;
pub mod tree;
pub mod validate;
pub mod value;
pub mod wildcard;
