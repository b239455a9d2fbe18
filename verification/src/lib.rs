//! Probes for interactive command-line programs under a pseudo-terminal.
pub mod ansi;
pub mod args;
pub mod binary;
pub mod capture;
pub mod cleanup;
pub mod clock;
pub mod compare;
pub mod double;
pub mod environ;
pub mod failure;
pub mod firsttoken;
pub mod fourpoint;
pub mod hooks;
pub mod inspect;
pub mod json;
pub mod lane;
pub mod latency;
pub mod launch;
pub mod lines;
pub mod monitor;
pub mod plan;
pub mod pty;
pub mod record;
pub mod recorded;
pub mod replay;
pub mod replay_lane;
pub mod report;
pub mod reports;
pub mod rig;
pub mod script;
pub mod session;
pub mod soak;
pub mod standin;
pub mod stats;
pub mod text;
pub mod throughput;
pub mod total;
pub mod utf8;
pub mod verify;
pub mod vt_eval;

pub use double::{human_bytes, human_ns};
pub use failure::{platform_report, Failure, COLS, ROWS};
