//! The values that the parser builds, and the records of the test-vector files.
pub mod eof_container;
pub mod eof_test_json;
pub mod full_code_section;
