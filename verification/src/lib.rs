//! A service daemon's logic, verified: supervised services' bookkeeping
//! (start, stop, restart, abnormal-exit retries), the signed control API's
//! authentication, Web UI sessions, CSRF checks and login rate limiting,
//! service definitions with their defaults, logging decisions, the reading
//! of JSON bodies and definition files, and the text handling all of these
//! rest on.
//!
//! Differences of times are taken exactly; a time moved later stops at the
//! largest timestamp, and the count of abnormal exits at `u32::MAX`.

pub mod text;
pub mod number;
pub mod name_map;
pub mod lifecycle;
pub mod util;
pub mod auth;
pub mod session;
pub mod document;
pub mod config;
pub mod logger;
pub mod webui;
