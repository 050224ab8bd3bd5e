//! The parser: from bytecode to an `EOFContainer`, validating the header.
use crate::constants::{
    CODE_SIZE_SIZE, CONTAINER_SIZE_SIZE, DATA_SIZE_SIZE, INPUTS_SIZE, KIND_SIZE, MAGIC_SIZE,
    MAX_NUM_CODE_SECTIONS, MAX_NUM_CONTAINER_SECTIONS, MAX_STACK_HEIGHT_SIZE,
    NUM_CODE_SECTIONS_SIZE, NUM_CONTAINER_SECTIONS_SIZE, OUTPUTS_SIZE, TERMINATOR_SIZE,
    TYPES_SIZE_SIZE, VERSION_SIZE,
};
use crate::layout::{
    code_offset, code_size_fault, code_size_pos, code_sizes_of, container_of, container_offset,
    container_size_fault, container_size_pos, container_sizes_of, containers_start, data_start,
    declared_size, kind_data_pos, lemma_declared_size_is_data_end, lemma_sum_take_le,
    lemma_sum_take_step, parse_spec, sum_sizes, types_entry_at, types_start, u16_at, ParseResult,
};
use crate::laws::{
    is_encoding_prefix, is_valid_container, lemma_parsed_bytecode_is_its_encoding,
    lemma_parsed_container_is_valid,
};
use crate::text::{decimal_string, hex_char_value, hex_digit_value, hex_encode, hex_text};
use crate::types::eof_container::{EOFContainer, Header};
use crate::types::full_code_section::{FullCodeSection, TypesSection};
use vstd::prelude::*;

verus! {

/// Value of the hexadecimal digits `k` of `hex_text(bytes)`, the high
/// nibble of each byte first.
pub open spec fn nibble(bytes: Seq<u8>, k: int) -> int {
    if k % 2 == 0 {
        bytes[k / 2] as int / 16
    } else {
        bytes[k / 2] as int % 16
    }
}

/// Value of the first `i` hexadecimal digits of `hex_text(bytes)`.
pub open spec fn hex_prefix_value(bytes: Seq<u8>, i: int) -> int
    decreases i,
{
    if i <= 0 {
        0
    } else {
        hex_prefix_value(bytes, i - 1) * 16 + nibble(bytes, i - 1)
    }
}

/// Reads two bytes as a big-endian number: their hexadecimal text, read back
/// in base 16.
fn bytes2_to_u16(bytes2: &[u8]) -> (v: u16)
    requires
        bytes2@.len() == 2,
    ensures
        v == bytes2@[0] as int * 256 + bytes2@[1] as int,
{
    let hex = hex_encode(bytes2);
    let digits = hex.as_str();
    let ghost b = bytes2@;
    let mut value: u16 = 0;
    let mut i: usize = 0;
    while i < 4
        invariant
            0 <= i <= 4,
            b == bytes2@,
            b.len() == 2,
            digits@ == hex_text(b),
            value == hex_prefix_value(b, i as int),
            value < if i == 0 {
                1int
            } else if i == 1 {
                16int
            } else if i == 2 {
                256int
            } else if i == 3 {
                4096int
            } else {
                65536int
            },
        decreases 4 - i,
    {
        let c = digits.get_char(i);
        proof {
            crate::text::lemma_hex_digit_roundtrip(nibble(b, i as int));
            assert(c == crate::text::hex_digit_char(nibble(b, i as int)));
            assert(hex_char_value(c) == Some(nibble(b, i as int)));
        }
        let d = hex_digit_value(c).unwrap();
        value = value * 16 + d as u16;
        i = i + 1;
    }
    proof {
        reveal_with_fuel(hex_prefix_value, 5);
        assert(b[0] as int == (b[0] as int / 16) * 16 + b[0] as int % 16);
        assert(b[1] as int == (b[1] as int / 16) * 16 + b[1] as int % 16);
    }
    value
}

/// Reads the big-endian number of the two bytes at `pos`.
fn read_u16(bytes: &[u8], pos: usize) -> (v: u16)
    requires
        pos + 2 <= bytes@.len(),
    ensures
        v == u16_at(bytes@, pos as int),
{
    let len = bytes.len();
    let v = bytes2_to_u16(&bytes[pos..pos + 2]);
    assert(bytes@.subrange(pos as int, pos + 2)[0] == bytes@[pos as int]);
    v
}

/// Sum of section sizes, wide enough that it never overflows.
fn sum_sizes_wide(sizes: &Vec<u16>) -> (total: u128)
    ensures
        total == sum_sizes(sizes@),
        total < 0x1_0000_0000_0000_0000_0000,
{
    let count = sizes.len();
    let mut total: u128 = 0;
    let mut k: usize = 0;
    while k < sizes.len()
        invariant
            k <= sizes@.len(),
            total == sum_sizes(sizes@.take(k as int)),
            total <= k * 65535,
            count == sizes@.len(),
        decreases sizes@.len() - k,
    {
        proof {
            lemma_sum_take_step(sizes@, k as int);
        }
        total = total + sizes[k] as u128;
        k = k + 1;
    }
    assert(sizes@.take(k as int) =~= sizes@);
    total
}

/// Checks that `len` is the total size that the header of `eof_container`
/// declares: 13 bytes of fixed header fields (16 with container sections),
/// two per code size and per container size, and the sizes of all sections.
pub fn post_validations(eof_container: &EOFContainer, len: usize) -> (r: Result<(), String>)
    ensures
        r is Ok <==> len == declared_size(eof_container@.header),
        r matches Err(e) ==> e@ == (if eof_container.header.num_container_sections == 0 {
            "Post condition 1 failed"@
        } else {
            "Post condition 2 failed"@
        }),
{
    let header = &eof_container.header;
    if header.num_container_sections == 0 {
        let total_code_sizes = sum_sizes_wide(&header.code_sizes);
        // 13: magic (2), version (1), kind types (1), types size (2), kind code (1),
        // number of code sections (2), kind data (1), data size (2), terminator (1)
        let expected: u128 = 13 + NUM_CODE_SECTIONS_SIZE as u128 * header.num_code_sections as u128
            + header.types_size as u128 + total_code_sizes + header.data_size as u128;
        if len as u128 != expected {
            return Err(String::from_str("Post condition 1 failed"));
        }
    } else {
        let total_code_size = sum_sizes_wide(&header.code_sizes);
        let total_container_size = sum_sizes_wide(&header.container_sizes);
        // 16: the same, with kind container (1) and number of container sections (2)
        let expected: u128 = 16 + NUM_CODE_SECTIONS_SIZE as u128 * header.num_code_sections as u128
            + header.types_size as u128 + total_code_size + header.data_size as u128
            + NUM_CONTAINER_SECTIONS_SIZE as u128 * header.num_container_sections as u128
            + total_container_size;
        if len as u128 != expected {
            return Err(String::from_str("Post condition 2 failed"));
        }
    }
    Ok(())
}

/// Parses `eof_bytecode` as an EOF container, validating its header and
/// reading its sections: the container, or the message of the first check
/// that failed. The data section may stop short of its declared size: the
/// bytecode is then taken for a container that is not deployed, and the
/// missing data bytes are zero.
#[verifier::loop_isolation(false)]
#[verifier::rlimit(80)]
pub fn parse_eof_bytecode(eof_bytecode: &[u8]) -> (r: Result<EOFContainer, String>)
    requires
        eof_bytecode@.len() <= isize::MAX,
    ensures
        match parse_spec(eof_bytecode@) {
            ParseResult::Parsed(c) => r matches Ok(container) && container@ == c,
            ParseResult::Rejected(message) => r matches Err(e) && e@ == message,
        },
        r matches Ok(c) ==> is_valid_container(c@, eof_bytecode@.len() as int)
            && is_encoding_prefix(c@, eof_bytecode@),
{
    let ghost b = eof_bytecode@;
    let len = eof_bytecode.len();
    let mut offset: usize = 0;

    // at least the minimal header size
    if len < 15 {
        return Err(String::from_str("Not up to min header size of 15 bytes"));
    }
    // the magic 0xEF00
    if eof_bytecode[offset] != 0xEF || eof_bytecode[offset + 1] != 0x00 {
        return Err(String::from_str("0xEF00 prefix not present"));
    }
    offset += MAGIC_SIZE;

    if eof_bytecode[offset] != 0x01 {
        return Err(String::from_str("Invalid EOF version"));
    }
    let version = eof_bytecode[offset];
    offset += VERSION_SIZE;

    if eof_bytecode[offset] != 0x01 {
        return Err(String::from_str("Kind types expected next"));
    }
    offset += KIND_SIZE;

    let types_size = read_u16(eof_bytecode, offset);
    offset += TYPES_SIZE_SIZE;
    if types_size % 4 != 0 {
        return Err(String::from_str("Types size not divisible by 4"));
    }

    if eof_bytecode[offset] != 0x02 {
        return Err(String::from_str("Kind code expected next"));
    }
    offset += KIND_SIZE;

    let num_code_sections = read_u16(eof_bytecode, offset);
    offset += NUM_CODE_SECTIONS_SIZE;

    // one types entry of 4 bytes per code section
    if num_code_sections as u32 * 4 != types_size as u32 {
        return Err(String::from_str("Types size not equal to num code sections * 4"));
    }
    if !(num_code_sections > 0 && num_code_sections <= MAX_NUM_CODE_SECTIONS as u16) {
        return Err(String::from_str("code sections num not > 0 and <= 1024"));
    }

    let ghost n = num_code_sections as int;
    let mut code_sizes: Vec<u16> = Vec::new();
    let mut i: u16 = 0;
    while i < num_code_sections
        invariant
            i <= num_code_sections,
            offset == code_size_pos(i as int),
            code_size_fault(b, 0, n) == code_size_fault(b, i as int, n),
            code_sizes@ =~= code_sizes_of(b).take(i as int),
        decreases num_code_sections - i,
    {
        if offset + CODE_SIZE_SIZE > len {
            return Err(String::from_str("insufficient bytecode length"));
        }
        let code_size = read_u16(eof_bytecode, offset);
        // a code section is never empty
        if code_size == 0 {
            let mut message = String::from_str("code size cannot be 0, found in section index ");
            let index = decimal_string(i as u64);
            message.append(index.as_str());
            return Err(message);
        }
        code_sizes.push(code_size);
        offset += CODE_SIZE_SIZE;
        i += 1;
    }
    assert(code_sizes@ =~= code_sizes_of(b));
    assert(code_size_fault(b, 0, n) is None);

    // the optional container kind
    if offset >= len {
        return Err(String::from_str("insufficient bytecode length"));
    }
    let mut num_container_sections: u16 = 0;
    let mut container_sizes: Vec<u16> = Vec::new();
    if eof_bytecode[offset] == 0x03 {
        offset += KIND_SIZE;
        if offset + NUM_CONTAINER_SECTIONS_SIZE > len {
            return Err(String::from_str("insufficient bytecode length"));
        }
        num_container_sections = read_u16(eof_bytecode, offset);
        if num_container_sections == 0 {
            return Err(
                String::from_str(
                    "Cannot have 0 num of container section when kind container is present",
                ),
            );
        }
        offset += NUM_CONTAINER_SECTIONS_SIZE;
        if !(num_container_sections > 0 && num_container_sections
            <= MAX_NUM_CONTAINER_SECTIONS as u16) {
            return Err(
                String::from_str("container sections num not > 0 and <= 256"),
            );
        }
        let ghost m = num_container_sections as int;
        let mut j: u16 = 0;
        while j < num_container_sections
            invariant
                j <= num_container_sections,
                offset == container_size_pos(b, j as int),
                container_size_fault(b, 0, m) == container_size_fault(b, j as int, m),
                container_sizes@ =~= container_sizes_of(b).take(j as int),
            decreases num_container_sections - j,
        {
            if offset + CONTAINER_SIZE_SIZE > len {
                return Err(String::from_str("insufficient bytecode length"));
            }
            let container_size = read_u16(eof_bytecode, offset);
            if container_size == 0 {
                let mut message = String::from_str("size cannot be 0, found in section index ");
                let index = decimal_string(j as u64);
                message.append(index.as_str());
                return Err(message);
            }
            container_sizes.push(container_size);
            offset += CONTAINER_SIZE_SIZE;
            j += 1;
        }
        assert(container_sizes@ =~= container_sizes_of(b));
        assert(container_size_fault(b, 0, m) is None);
    } else {
        assert(container_sizes@ =~= container_sizes_of(b));
    }
    assert(offset == kind_data_pos(b));

    // the data kind, the data size and the terminator
    if offset >= len {
        return Err(String::from_str("insufficient bytecode length"));
    }
    if eof_bytecode[offset] != 0x04 {
        return Err(String::from_str("Kind data expected next"));
    }
    offset += KIND_SIZE;
    if offset + DATA_SIZE_SIZE > len {
        return Err(String::from_str("insufficient bytecode length"));
    }
    let data_size = read_u16(eof_bytecode, offset);
    offset += DATA_SIZE_SIZE;
    if offset >= len {
        return Err(String::from_str("insufficient bytecode length"));
    }
    if eof_bytecode[offset] != 0x00 {
        return Err(String::from_str("Terminator expected next"));
    }
    offset += TERMINATOR_SIZE;
    assert(offset == types_start(b));

    // the types section and the code sections
    let ghost t = types_start(b);
    let ghost cs = code_sizes_of(b);
    let mut types_offset = offset;
    offset += types_size as usize;
    let mut full_code_section: Vec<FullCodeSection> = Vec::new();
    let mut i: usize = 0;
    while i < num_code_sections as usize
        invariant
            i <= n,
            types_offset == t + 4 * i,
            offset == code_offset(b, i as int),
            i > 0 ==> t + 4 <= len && offset <= len,
            full_code_section@.len() == i,
            forall|k: int|
                0 <= k < i ==> #[trigger] full_code_section@[k]@
                    == container_of(b).full_code_section[k],
        decreases n - i,
    {
        proof {
            lemma_sum_take_step(cs, i as int);
            lemma_sum_take_le(cs, i as int + 1);
        }
        if types_offset + INPUTS_SIZE + OUTPUTS_SIZE + MAX_STACK_HEIGHT_SIZE > len {
            return Err(String::from_str("insufficient bytecode length"));
        }
        let inputs = eof_bytecode[types_offset];
        types_offset += INPUTS_SIZE;
        let outputs_byte = eof_bytecode[types_offset];
        // 0x80 marks a non-returning section
        let outputs = if outputs_byte == 128 {
            None
        } else {
            Some(outputs_byte)
        };
        types_offset += OUTPUTS_SIZE;
        let max_stack_height = read_u16(eof_bytecode, types_offset);
        types_offset += MAX_STACK_HEIGHT_SIZE;

        let code_size = code_sizes[i] as usize;
        if offset > len || code_size > len - offset {
            return Err(String::from_str("insufficient bytecode length"));
        }
        let code_section = vstd::slice::slice_to_vec(&eof_bytecode[offset..offset + code_size]);
        offset += code_size;
        full_code_section.push(
            FullCodeSection {
                types_section: TypesSection { inputs, outputs, max_stack_height },
                code_section,
            },
        );
        i += 1;
    }
    assert(cs.take(n) =~= cs);
    assert(offset == containers_start(b));

    assert(full_code_section@[0]@ == container_of(b).full_code_section[0]);
    assert(full_code_section@[0]@.types_section == types_entry_at(b, t));
    if !(full_code_section[0].types_section.inputs == 0
        && full_code_section[0].types_section.outputs.is_none()) {
        return Err(
            String::from_str("0th code section must have 0 inputs and 0 outputs"),
        );
    }

    // the container sections
    let ghost m = num_container_sections as int;
    let ghost cc = container_sizes_of(b);
    let mut container_section: Vec<Vec<u8>> = Vec::new();
    let mut j: usize = 0;
    while j < num_container_sections as usize
        invariant
            j <= m,
            offset == container_offset(b, j as int),
            offset <= len,
            container_section@.len() == j,
            forall|k: int|
                0 <= k < j ==> #[trigger] container_section@[k]@
                    == container_of(b).container_section[k],
        decreases m - j,
    {
        proof {
            lemma_sum_take_step(cc, j as int);
            lemma_sum_take_le(cc, j as int + 1);
        }
        let container_size = container_sizes[j] as usize;
        if container_size > len - offset {
            return Err(String::from_str("insufficient bytecode length"));
        }
        container_section.push(
            vstd::slice::slice_to_vec(&eof_bytecode[offset..offset + container_size]),
        );
        offset += container_size;
        j += 1;
    }
    assert(cc.take(m) =~= cc);
    assert(offset == data_start(b));

    // the data section; past the end of the bytecode it is taken to be zero
    let mut data_section: Vec<u8> = Vec::new();
    if data_size > 0 {
        let padding = (offset + data_size as usize).saturating_sub(len);
        if padding == 0 {
            data_section = vstd::slice::slice_to_vec(
                &eof_bytecode[offset..offset + data_size as usize],
            );
        } else {
            data_section = vstd::slice::slice_to_vec(&eof_bytecode[offset..len]);
            let mut k: usize = 0;
            while k < padding
                invariant
                    k <= padding,
                    data_section@.len() == len - offset + k,
                    forall|x: int|
                        0 <= x < data_section@.len() ==> #[trigger] data_section@[x] == (if x
                            < len - offset {
                            b[offset + x]
                        } else {
                            0u8
                        }),
                decreases padding - k,
            {
                data_section.push(0);
                k += 1;
            }
        }
        offset += data_size as usize;
    }
    assert(data_section@ =~= container_of(b).data_section);

    // nothing may follow the declared sections
    if offset < len {
        return Err(String::from_str("Trailing byte after parsing"));
    }
    proof {
        lemma_declared_size_is_data_end(b);
    }

    let eof_container = EOFContainer {
        header: Header {
            version,
            types_size,
            num_code_sections,
            code_sizes,
            num_container_sections,
            container_sizes,
            data_size,
        },
        full_code_section,
        container_section,
        data_section,
    };
    assert(eof_container@.full_code_section =~= container_of(b).full_code_section);
    assert(eof_container@.container_section =~= container_of(b).container_section);
    assert(eof_container@ == container_of(b));

    match post_validations(&eof_container, offset) {
        Err(e) => Err(e),
        Ok(()) => {
            proof {
                lemma_parsed_container_is_valid(b);
                lemma_parsed_bytecode_is_its_encoding(b);
            }
            Ok(eof_container)
        },
    }
}

} // verus!
