//! Helpers for tests that work with files.
//!
//! [`file_reader::TextFileReader`] holds what was read of a file and compares
//! two files byte for byte. [`fixture::TemporaryFileFixture`] works out where
//! a disposable file lives inside a temporary directory and where the file
//! that seeds it is found.
pub mod debug_text;
pub mod file_reader;
pub mod fixture;
pub mod path;
pub mod text;
