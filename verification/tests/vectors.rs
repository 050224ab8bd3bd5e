use std::collections::HashMap;

use eof_parser::input::bytecode_from_hex;
use eof_parser::parser::parse_eof_bytecode;
use eof_parser::types::eof_test_json::{Info, Input, Prague, Results, Tests, Vectors};

fn vector(code: &str, result: bool) -> Vectors {
    Vectors { code: code.to_string(), results: Results { prague: Prague { result } } }
}

#[test]
fn test_vectors_by_expected_result() {
    let mut vectors = HashMap::new();
    vectors.insert("minimal".to_string(), vector("0xef00010100040200010001040000000080000000", true));
    vectors.insert("with_data".to_string(), vector("0xef0001010004020001000604000200008000016000e0000000aabb", true));
    vectors.insert("bad_magic".to_string(), vector("0xef01010100040200010001040000000080000000", false));
    vectors.insert("trailing".to_string(), vector("0xef0001010004020001000104000000008000000000", false));
    vectors.insert("zero_code_size".to_string(), vector("0xef000101000402000100000400000000800000", false));
    vectors.insert("truncated_header".to_string(), vector("0xef0001010004020001000104", false));
    vectors.insert("cut_code_sizes".to_string(), vector("0xef000101001002000400010001000100", false));
    vectors.insert("no_terminator".to_string(), vector("0xef0001010004020001000104000001008000000000", false));
    let input = Input {
        valid_invalid: Tests { _info: Info { comment: "hand-written".to_string() }, vectors },
    };
    for (name, test) in input.valid_invalid.vectors.into_iter() {
        let bytecode = bytecode_from_hex(&test.code).unwrap();
        let ret = parse_eof_bytecode(&bytecode);
        if test.results.prague.result {
            assert!(ret.is_ok(), "Test {} did not pass as expected. Err: {}", name, ret.err().unwrap());
        } else {
            assert!(ret.is_err(), "Test {} did not fail as expected", name);
        }
    }
}
