//! Node-side support library: monitoring counters, the asynchronous DNS
//! resolver state machines, and the Clarity VM's lexical contexts and call stack.

pub mod monitoring;
pub mod vm;
pub mod net;
