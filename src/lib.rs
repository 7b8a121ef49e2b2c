//! Redirects a cape service's host name to this machine and forwards each
//! intercepted request to an ordered list of upstream cape servers.
//!
//! - `mode`: proxy modes and the upstream candidates of each.
//! - `heuristic`: whether an upstream answer is final.
//! - `engine`: the forwarding state machine that walks the candidates.
//! - `headers`: header sets carried to and from upstreams.
//! - `intercept`: which requests are forwarded, and where to.
//! - `hosts`: adding and removing the redirect in the hosts table.
//! - `bytes`: byte-sequence helpers.
pub mod bytes;
pub mod engine;
pub mod headers;
pub mod heuristic;
pub mod hosts;
pub mod intercept;
pub mod mode;
