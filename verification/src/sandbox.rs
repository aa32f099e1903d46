//! The sandbox's capability model: what each kernel primitive reported at
//! preflight, what that allows the session to do, and the per-session
//! cgroup it runs in, and the framing of the worker's messages.

pub mod backend;
pub mod cgroups;
pub mod preflight;
pub mod probes;
pub mod transport;
pub mod worker;
