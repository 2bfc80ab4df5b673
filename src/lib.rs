//! Verified core of a spacecraft service stack: the radio frame codec, the
//! decisions of the communications bridge, the chunk-store rules and session
//! state machine of the file transfer protocol, and the task rules of the
//! mode scheduler.

pub mod bridge;
pub mod codec;
pub mod ffi;
pub mod gaps;
pub mod protocol;
pub mod scheduler;
pub mod storage;
pub mod task;
pub mod text;
