//! The daemon that keeps a session alive: its control protocol, the files it
//! leaves and the decisions of its control loop.

pub mod control;
pub mod files;
pub mod protocol;
pub mod runner;

pub use control::{
    connecting_status, reconnect_delay, session_status, AttemptState, ControlLoop, LoopAction,
    LoopEvent, LoopStage, SessionFacts,
};
pub use files::{
    map_connect_error, prepare_secure_dir, read_limited_line, remove_stale_socket, state_contents,
    write_state, ConnectErrorKind, DaemonPaths, DirAction, DirEvent, DirMetadata,
};
pub use protocol::{ControlRequest, ControlResponse, SessionState, SessionStatus};
