//! The core of a small file-management service: the guard that decides who may
//! act, and the rules by which batches of file operations are carried out and
//! reported.
pub mod file;
pub mod service;
pub mod token;
