//! Host-side logic of the LiteBox Windows userland platform.
//!
//! The crate holds the decisions the platform makes: the presenter control protocol, the
//! cross-process lock, the fork-child verifier, the copy-on-write guard registry, the userspace
//! network gateway and the frame presenter. Each module works on plain values; the program around
//! the library performs the operating-system calls and hands their results back.

pub mod text;
pub mod numbers;
pub mod request;
pub mod reply;
pub mod relocations;
pub mod instruction;
pub mod memory;
pub mod fork_verify;
pub mod lazy_fork_commit;
pub mod guard_cow;
pub mod bytes;
pub mod process_fork;
pub mod process_spawn;
pub mod process_observe;
pub mod pipe;
pub mod xproc_sync;
pub mod ctxwatch;
pub mod packets;
pub mod net;
pub mod keys;
pub mod presentation;
pub mod presenter;

pub use pipe::pipe_name;
pub use reply::{ErrorCode, PresenterState, Reply, ReplyHeader, ScanoutReply};
pub use request::{ParseError, Request};
