//! Core of an untrusted-code execution service: scratch-file allocation,
//! verdict formation, the coverage-report parser, the deadline table for
//! spawned children, and the test-bank cache. The network transport and the
//! actual process spawning live outside the library and consume these
//! pieces; every decision about what to run and what to answer is made and
//! proved here.
pub mod bank;
pub mod covparse;
pub mod decimal;
pub mod jsonfmt;
pub mod pidpool;
pub mod runner;
pub mod scratch;
pub mod text;
pub mod verbs;
pub mod verdict;
