use eof_parser::input::{bytecode_from_hex, HexDecodeError};
use eof_parser::parser::{parse_eof_bytecode, post_validations};
use eof_parser::types::eof_container::{EOFContainer, Header};
use eof_parser::types::full_code_section::{FullCodeSection, TypesSection};

const SIMPLE: &str = "0xef0001010004020001000604000200008000016000e0000000aabb";

const WITH_CONTAINERS: &str = "EF00 01 01 0004 02 0001 0008 03 0001 0030 04 0000 00 00 80 0004 5F 5F 60FF 5F EC00 00 EF00 01 01 0004 02 0001 0004 03 0001 0014 04 0000 00 00 80 0002 5F 5F EE00 EF00 01 01 0004 02 0001 0001 04 0000 00 00 80 0000 00";

fn bytes(hex: &str) -> Vec<u8> {
    bytecode_from_hex(&hex.to_lowercase()).unwrap()
}

fn rejected(code: &[u8]) -> String {
    match parse_eof_bytecode(code) {
        Err(message) => message,
        Ok(c) => panic!("expected a refusal, got {:?}", c),
    }
}

/// A minimal valid container: one code section of `code_size` bytes
/// (`0x00` each) and `data` as data section.
fn simple_container(code_size: u16, data: &[u8]) -> Vec<u8> {
    let mut b = vec![0xEF, 0x00, 0x01, 0x01, 0x00, 0x04, 0x02, 0x00, 0x01];
    b.extend_from_slice(&code_size.to_be_bytes());
    b.push(0x04);
    b.extend_from_slice(&(data.len() as u16).to_be_bytes());
    b.push(0x00);
    b.extend_from_slice(&[0x00, 0x80, 0x00, 0x00]);
    b.extend(std::iter::repeat(0u8).take(code_size as usize));
    b.extend_from_slice(data);
    b
}

#[test]
fn parses_the_readme_example() {
    let code = bytes(SIMPLE);
    let c = parse_eof_bytecode(&code).unwrap();
    assert_eq!(c.header.version, 1);
    assert_eq!(c.header.types_size, 4);
    assert_eq!(c.header.num_code_sections, 1);
    assert_eq!(c.header.code_sizes, vec![6]);
    assert_eq!(c.header.num_container_sections, 0);
    assert!(c.header.container_sizes.is_empty());
    assert_eq!(c.header.data_size, 2);
    assert_eq!(c.full_code_section.len(), 1);
    assert_eq!(c.full_code_section[0].types_section.inputs, 0);
    assert_eq!(c.full_code_section[0].types_section.outputs, None);
    assert_eq!(c.full_code_section[0].types_section.max_stack_height, 1);
    assert_eq!(c.full_code_section[0].code_section, vec![0x60, 0x00, 0xe0, 0x00, 0x00, 0x00]);
    assert!(c.container_section.is_empty());
    assert_eq!(c.data_section, vec![0xaa, 0xbb]);
}

#[test]
fn parses_the_spaced_readme_example_with_containers() {
    let code = bytes(WITH_CONTAINERS);
    let c = parse_eof_bytecode(&code).unwrap();
    assert_eq!(c.header.num_code_sections, 1);
    assert_eq!(c.header.code_sizes, vec![8]);
    assert_eq!(c.header.num_container_sections, 1);
    assert_eq!(c.header.container_sizes, vec![0x30]);
    assert_eq!(c.header.data_size, 0);
    assert_eq!(c.full_code_section[0].types_section.max_stack_height, 4);
    assert_eq!(
        c.full_code_section[0].code_section,
        vec![0x5f, 0x5f, 0x60, 0xff, 0x5f, 0xec, 0x00, 0x00]
    );
    assert_eq!(c.container_section.len(), 1);
    assert_eq!(c.container_section[0].len(), 0x30);
    assert_eq!(&c.container_section[0][..4], &[0xef, 0x00, 0x01, 0x01]);
    assert!(c.data_section.is_empty());
    // the subcontainer is itself a container (its data section is truncated)
    let sub = parse_eof_bytecode(&c.container_section[0]).unwrap();
    assert_eq!(sub.header.num_container_sections, 1);
    assert_eq!(sub.header.container_sizes, vec![0x14]);
}

#[test]
fn refuses_short_bytecode() {
    assert_eq!(rejected(&[0xEF, 0x00, 0x01]), "Not up to min header size of 15 bytes");
    assert_eq!(rejected(&[]), "Not up to min header size of 15 bytes");
}

#[test]
fn refuses_a_wrong_magic() {
    let mut code = bytes(SIMPLE);
    code[1] = 0x01;
    assert_eq!(rejected(&code), "0xEF00 prefix not present");
}

#[test]
fn refuses_a_wrong_version() {
    let mut code = bytes(SIMPLE);
    code[2] = 0x02;
    assert_eq!(rejected(&code), "Invalid EOF version");
}

#[test]
fn refuses_a_missing_kind_types() {
    let mut code = bytes(SIMPLE);
    code[3] = 0x02;
    assert_eq!(rejected(&code), "Kind types expected next");
}

#[test]
fn refuses_a_types_size_not_divisible_by_four() {
    let mut code = bytes(SIMPLE);
    code[5] = 0x05;
    assert_eq!(rejected(&code), "Types size not divisible by 4");
}

#[test]
fn refuses_a_missing_kind_code() {
    let mut code = bytes(SIMPLE);
    code[6] = 0x03;
    assert_eq!(rejected(&code), "Kind code expected next");
}

#[test]
fn refuses_a_types_size_that_does_not_match() {
    let mut code = bytes(SIMPLE);
    code[5] = 0x08;
    assert_eq!(rejected(&code), "Types size not equal to num code sections * 4");
}

#[test]
fn refuses_zero_code_sections() {
    let mut code = bytes(SIMPLE);
    code[5] = 0x00;
    code[8] = 0x00;
    assert_eq!(rejected(&code), "code sections num not > 0 and <= 1024");
}

#[test]
fn refuses_more_than_1024_code_sections() {
    let mut code = bytes(SIMPLE);
    // 1025 sections, 4100 bytes of types
    code[4] = 0x10;
    code[5] = 0x04;
    code[7] = 0x04;
    code[8] = 0x01;
    assert_eq!(rejected(&code), "code sections num not > 0 and <= 1024");
}

#[test]
fn refuses_a_number_of_code_sections_whose_types_size_overflows_16_bits() {
    let mut code = bytes(SIMPLE);
    code[4] = 0x00;
    code[5] = 0x00;
    code[7] = 0x40;
    code[8] = 0x00;
    assert_eq!(rejected(&code), "Types size not equal to num code sections * 4");
}

#[test]
fn refuses_a_zero_code_size() {
    let code = simple_container(0, &[]);
    assert_eq!(rejected(&code), "code size cannot be 0, found in section index 0");
    let code = bytes("ef000101000402000100000400000000800000");
    assert_eq!(rejected(&code), "code size cannot be 0, found in section index 0");
}

#[test]
fn refuses_code_sizes_that_run_past_the_end() {
    // 4 code sections declared in a 15-byte bytecode
    let code = vec![0xEF, 0x00, 0x01, 0x01, 0x00, 0x10, 0x02, 0x00, 0x04, 0x00, 0x01, 0x00, 0x01, 0x00, 0x01];
    assert_eq!(rejected(&code), "insufficient bytecode length");
}

#[test]
fn refuses_a_header_cut_short() {
    let code = simple_container(1, &[]);
    // cut inside the data size, inside the types entry
    assert_eq!(rejected(&code[..15]), "insufficient bytecode length");
    assert_eq!(rejected(&code[..17]), "insufficient bytecode length");
    // a container kind whose sizes are cut short
    let code = bytes("ef00 01 01 0004 02 0001 0001 03 0002 0001");
    assert_eq!(rejected(&code), "insufficient bytecode length");
    // container sections cut short
    let code = bytes("ef00 01 01 0004 02 0001 0001 03 0001 0004 04 0000 00 00800000 00 ef00");
    assert_eq!(rejected(&code), "insufficient bytecode length");
}

#[test]
fn refuses_a_container_kind_without_sections() {
    let code = bytes("ef00 01 01 0004 02 0001 0001 03 0000 04 0000 00 00800000 00");
    assert_eq!(
        rejected(&code),
        "Cannot have 0 num of container section when kind container is present"
    );
}

#[test]
fn refuses_more_than_256_container_sections() {
    let code = bytes("ef00 01 01 0004 02 0001 0001 03 0101 04 0000 00 00800000 00");
    assert_eq!(rejected(&code), "container sections num not > 0 and <= 256");
}

#[test]
fn refuses_a_zero_container_size() {
    let code = bytes("ef00 01 01 0004 02 0001 0001 03 0002 0001 0000 04 0000 00 00800000 00 00");
    assert_eq!(rejected(&code), "size cannot be 0, found in section index 1");
}

#[test]
fn refuses_a_missing_kind_data() {
    let mut code = simple_container(1, &[]);
    code[11] = 0x05;
    assert_eq!(rejected(&code), "Kind data expected next");
}

#[test]
fn refuses_a_missing_terminator() {
    let mut code = simple_container(1, &[]);
    code[14] = 0x01;
    assert_eq!(rejected(&code), "Terminator expected next");
}

#[test]
fn refuses_missing_code_bytes() {
    let mut code = simple_container(3, &[]);
    code.pop();
    assert_eq!(rejected(&code), "insufficient bytecode length");
}

#[test]
fn refuses_a_first_section_with_inputs_or_outputs() {
    let mut code = simple_container(1, &[]);
    code[15] = 0x01;
    assert_eq!(rejected(&code), "0th code section must have 0 inputs and 0 outputs");
    let mut code = simple_container(1, &[]);
    code[16] = 0x00;
    assert_eq!(rejected(&code), "0th code section must have 0 inputs and 0 outputs");
}

#[test]
fn refuses_trailing_bytes() {
    let mut code = bytes(SIMPLE);
    code.push(0x00);
    assert_eq!(rejected(&code), "Trailing byte after parsing");
}

#[test]
fn pads_a_truncated_data_section_with_zeros() {
    let mut code = simple_container(1, &[1, 2, 3, 4]);
    code.truncate(code.len() - 2);
    let c = parse_eof_bytecode(&code).unwrap();
    assert_eq!(c.header.data_size, 4);
    assert_eq!(c.data_section, vec![1, 2, 0, 0]);
}

#[test]
fn parses_a_container_larger_than_16_bits_can_count() {
    let code = simple_container(65000, &[0; 1000]);
    let c = parse_eof_bytecode(&code).unwrap();
    assert_eq!(c.full_code_section[0].code_section.len(), 65000);
    assert_eq!(c.data_section.len(), 1000);
}

fn container(num_container_sections: u16, code_sizes: Vec<u16>, container_sizes: Vec<u16>, data_size: u16) -> EOFContainer {
    EOFContainer {
        header: Header {
            version: 1,
            types_size: 4 * code_sizes.len() as u16,
            num_code_sections: code_sizes.len() as u16,
            code_sizes,
            num_container_sections,
            container_sizes,
            data_size,
        },
        full_code_section: Vec::new(),
        container_section: Vec::new(),
        data_section: Vec::new(),
    }
}

#[test]
fn post_validations_compares_the_declared_size() {
    // 13 + 2 + 4 + 6 + 2
    let c = container(0, vec![6], vec![], 2);
    assert_eq!(post_validations(&c, 27), Ok(()));
    assert_eq!(post_validations(&c, 28), Err("Post condition 1 failed".to_string()));
    // 16 + 2 + 4 + 8 + 0 + 2 + 48
    let c = container(1, vec![8], vec![0x30], 0);
    assert_eq!(post_validations(&c, 80), Ok(()));
    assert_eq!(post_validations(&c, 79), Err("Post condition 2 failed".to_string()));
    // the length must equal the declared size exactly
    assert_eq!(post_validations(&c, 80 + 65536), Err("Post condition 2 failed".to_string()));
    // sizes summing past 16 bits are summed without overflow
    let c = container(0, vec![65535, 65535], vec![], 0);
    assert_eq!(post_validations(&c, 27), Err("Post condition 1 failed".to_string()));
    assert_eq!(post_validations(&c, 13 + 4 + 8 + 131070), Ok(()));
}

#[test]
fn displays_a_container() {
    let c = parse_eof_bytecode(&bytes(SIMPLE)).unwrap();
    let expected = "
            HEADER:
                version: 1,
                types_size: 4
                num_code_sections: 1,
                code_sizes: [6],
                num_container_sections: 0,
                container_sizes: [],
                data_size: 2
            
            FULL_CODE_SECTION_0:
                types_section:
                    inputs: 0,
                    outputs: NonReturning,
                    max_stack_height: 1
                code_section: 0x6000e0000000
            
            CONTAINER_SECTION: None
            
            DATA_SECTION: 0xaabb
            ";
    assert_eq!(c.to_display_string(), expected);
}

#[test]
fn displays_container_sections() {
    let c = parse_eof_bytecode(&bytes(WITH_CONTAINERS)).unwrap();
    let text = c.to_display_string();
    assert!(text.contains("container_sizes: [48],"));
    assert!(text.contains("\n            CONTAINER_SECTION_0: 0xef00010100040200010004030001001404000000008000025f5fee00ef00010100040200010001040000000080000000\n                    "));
    assert!(text.contains("DATA_SECTION: 0x\n"));
}

#[test]
fn formats_code_sections() {
    let sections = vec![
        FullCodeSection {
            types_section: TypesSection { inputs: 0, outputs: None, max_stack_height: 1 },
            code_section: vec![0x00],
        },
        FullCodeSection {
            types_section: TypesSection { inputs: 2, outputs: Some(17), max_stack_height: 300 },
            code_section: vec![0xab, 0x0f],
        },
    ];
    let expected = "
            FULL_CODE_SECTION_0:
                types_section:
                    inputs: 0,
                    outputs: NonReturning,
                    max_stack_height: 1
                code_section: 0x00
            FULL_CODE_SECTION_1:
                types_section:
                    inputs: 2,
                    outputs: 17,
                    max_stack_height: 300
                code_section: 0xab0f";
    assert_eq!(FullCodeSection::fmt(&sections), expected);
    assert_eq!(FullCodeSection::fmt(&[]), "");
}

#[test]
fn defaults_are_empty() {
    let c = EOFContainer::default();
    assert_eq!(c.header.version, 0);
    assert!(c.header.code_sizes.is_empty());
    assert!(c.full_code_section.is_empty());
    let s = FullCodeSection::default();
    assert_eq!(s.types_section.outputs, None);
    assert!(s.code_section.is_empty());
}

#[test]
fn decodes_hex_input() {
    assert_eq!(bytecode_from_hex("0xef00 01"), Ok(vec![0xef, 0x00, 0x01]));
    assert_eq!(bytecode_from_hex("EF0x00"), Ok(vec![0xef, 0x00]));
    // `0x` is dropped wherever it stands, from left to right
    assert_eq!(bytecode_from_hex("00xx"), Err(HexDecodeError::InvalidHexCharacter { c: 'x', index: 1 }));
    assert_eq!(bytecode_from_hex("abc"), Err(HexDecodeError::OddLength));
    assert_eq!(bytecode_from_hex("zz"), Err(HexDecodeError::InvalidHexCharacter { c: 'z', index: 0 }));
    assert_eq!(bytecode_from_hex(""), Ok(vec![]));
}

#[test]
fn hex_text_of_a_section_reads_back() {
    let code = bytes(WITH_CONTAINERS);
    let c = parse_eof_bytecode(&code).unwrap();
    let text = c.to_display_string();
    let start = text.find("CONTAINER_SECTION_0: ").unwrap() + "CONTAINER_SECTION_0: ".len();
    let end = start + text[start..].find('\n').unwrap();
    assert_eq!(bytecode_from_hex(&text[start..end]).unwrap(), c.container_section[0]);
}

#[test]
fn the_0x_prefix_spaces_and_case_make_no_difference() {
    let plain = bytecode_from_hex("ef0001").unwrap();
    assert_eq!(bytecode_from_hex("0xef0001").unwrap(), plain);
    assert_eq!(bytecode_from_hex("ef 00 01").unwrap(), plain);
    assert_eq!(bytecode_from_hex("EF0001").unwrap(), plain);
    assert_eq!(bytecode_from_hex(" 0x EF 00 01 ").unwrap(), plain);
}

#[test]
fn a_parsed_container_keeps_its_header_promises() {
    for code in [bytes(SIMPLE), bytes(WITH_CONTAINERS), simple_container(3, &[9, 9])] {
        let c = parse_eof_bytecode(&code).unwrap();
        let h = &c.header;
        assert_eq!(h.version, 1);
        assert_eq!(h.types_size as usize, 4 * h.num_code_sections as usize);
        assert_eq!(h.code_sizes.len(), h.num_code_sections as usize);
        assert!(h.code_sizes.iter().all(|&s| s > 0));
        assert_eq!(h.container_sizes.len(), h.num_container_sections as usize);
        for (s, size) in c.full_code_section.iter().zip(h.code_sizes.iter()) {
            assert_eq!(s.code_section.len(), *size as usize);
        }
        for (s, size) in c.container_section.iter().zip(h.container_sizes.iter()) {
            assert_eq!(s.len(), *size as usize);
        }
        assert_eq!(c.data_section.len(), h.data_size as usize);
        let declared = if h.num_container_sections == 0 {
            13 + 2 * h.num_code_sections as usize + h.types_size as usize
                + h.code_sizes.iter().map(|&s| s as usize).sum::<usize>() + h.data_size as usize
        } else {
            16 + 2 * h.num_code_sections as usize + h.types_size as usize
                + h.code_sizes.iter().map(|&s| s as usize).sum::<usize>() + h.data_size as usize
                + 2 * h.num_container_sections as usize
                + h.container_sizes.iter().map(|&s| s as usize).sum::<usize>()
        };
        assert!(code.len() <= declared && declared <= code.len() + h.data_size as usize);
        assert_eq!(post_validations(&c, declared), Ok(()));
    }
}

#[test]
fn cutting_into_the_data_keeps_the_rest() {
    let code = simple_container(2, &[7, 8, 9]);
    for cut in 0..=3 {
        let c = parse_eof_bytecode(&code[..code.len() - cut]).unwrap();
        let expected: Vec<u8> = [7u8, 8, 9].iter().enumerate().map(|(i, &x)| if i < 3 - cut { x } else { 0 }).collect();
        assert_eq!(c.data_section, expected);
        assert_eq!(c.full_code_section[0].code_section, vec![0, 0]);
    }
    // cutting into the code is refused
    assert_eq!(rejected(&code[..code.len() - 4]), "insufficient bytecode length");
}

fn be(x: u16) -> [u8; 2] {
    x.to_be_bytes()
}

/// The container written back out, as the parser reads it.
fn encode(c: &EOFContainer) -> Vec<u8> {
    let h = &c.header;
    let mut e = vec![0xEF, 0x00, h.version, 0x01];
    e.extend_from_slice(&be(h.types_size));
    e.push(0x02);
    e.extend_from_slice(&be(h.num_code_sections));
    for s in &h.code_sizes {
        e.extend_from_slice(&be(*s));
    }
    if h.num_container_sections > 0 {
        e.push(0x03);
        e.extend_from_slice(&be(h.num_container_sections));
        for s in &h.container_sizes {
            e.extend_from_slice(&be(*s));
        }
    }
    e.push(0x04);
    e.extend_from_slice(&be(h.data_size));
    e.push(0x00);
    for s in &c.full_code_section {
        e.push(s.types_section.inputs);
        e.push(s.types_section.outputs.unwrap_or(0x80));
        e.extend_from_slice(&be(s.types_section.max_stack_height));
    }
    for s in &c.full_code_section {
        e.extend_from_slice(&s.code_section);
    }
    for s in &c.container_section {
        e.extend_from_slice(s);
    }
    e.extend_from_slice(&c.data_section);
    e
}

#[test]
fn a_parsed_bytecode_is_its_container_written_back() {
    for code in [bytes(SIMPLE), bytes(WITH_CONTAINERS)] {
        let c = parse_eof_bytecode(&code).unwrap();
        assert_eq!(encode(&c), code);
    }
    // with the data cut short, only zeros follow
    let full = simple_container(2, &[5, 6, 7]);
    let code = &full[..full.len() - 2];
    let c = parse_eof_bytecode(code).unwrap();
    let e = encode(&c);
    assert_eq!(&e[..code.len()], code);
    assert_eq!(&e[code.len()..], &[0, 0]);
}

#[test]
fn the_input_is_read_in_either_case() {
    let plain = bytecode_from_hex("0xef0001").unwrap();
    assert_eq!(bytecode_from_hex("0XEF0001").unwrap(), plain);
    assert_eq!(bytecode_from_hex("0Xef 00 01").unwrap(), plain);
    assert_eq!(bytecode_from_hex("0xZZ"), Err(HexDecodeError::InvalidHexCharacter { c: 'z', index: 0 }));
}
