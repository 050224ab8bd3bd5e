//! Records of a test-vector file: named bytecodes, each with the verdict
//! expected under the Prague rules.
use std::collections::HashMap;
use vstd::prelude::*;

verus! {

/// The whole file: one group of valid and invalid vectors.
#[derive(Debug)]
pub struct Input {
    pub valid_invalid: Tests,
}

/// A group of vectors, keyed by name, with its descriptive record.
#[derive(Debug)]
pub struct Tests {
    pub _info: Info,
    pub vectors: HashMap<String, Vectors>,
}

/// One vector: the bytecode as hex text, and the expected results.
#[derive(Debug)]
pub struct Vectors {
    pub code: String,
    pub results: Results,
}

/// The expected results of a vector, per rule set.
#[derive(Debug)]
pub struct Results {
    pub prague: Prague,
}

/// Whether the bytecode is valid under the Prague rules.
#[derive(Debug)]
pub struct Prague {
    pub result: bool,
}

/// The descriptive record of a group of vectors.
#[derive(Debug)]
pub struct Info {
    pub comment: String,
}

} // verus!
