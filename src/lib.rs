pub mod channel;
pub mod intermediate;
pub mod namespaces;
pub mod pids;
