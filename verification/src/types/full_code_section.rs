//! One code section of a container together with its entry of the types section.
use crate::text::{
    decimal_string, decimal_text, hex_encode, hex_text, lemma_decimal_text_injective,
    lemma_decimal_text_reads_back,
};
use vstd::prelude::*;

verus! {

/// An entry of the types section: the inputs, the outputs (`None` for a
/// non-returning section, encoded as 0x80) and the maximum stack height.
#[derive(Debug, Clone, Copy)]
pub struct TypesSection {
    pub inputs: u8,
    pub outputs: Option<u8>,
    pub max_stack_height: u16,
}

/// A code section and its types-section entry.
#[derive(Debug)]
pub struct FullCodeSection {
    pub types_section: TypesSection,
    pub code_section: Vec<u8>,
}

/// The mathematical value of a `FullCodeSection`.
pub struct FullCodeSectionView {
    pub types_section: TypesSection,
    pub code_section: Seq<u8>,
}

impl View for FullCodeSection {
    type V = FullCodeSectionView;

    open spec fn view(&self) -> FullCodeSectionView {
        FullCodeSectionView { types_section: self.types_section, code_section: self.code_section@ }
    }
}

impl Default for FullCodeSection {
    fn default() -> (s: Self)
        ensures
            s.types_section.inputs == 0,
            s.types_section.outputs is None,
            s.types_section.max_stack_height == 0,
            s.code_section@ == Seq::<u8>::empty(),
    {
        FullCodeSection {
            types_section: TypesSection { inputs: 0, outputs: None, max_stack_height: 0 },
            code_section: Vec::new(),
        }
    }
}

/// Text of the outputs of a types entry: the number, or `NonReturning`.
pub open spec fn outputs_text(outputs: Option<u8>) -> Seq<char> {
    match outputs {
        Some(x) => decimal_text(x as nat),
        None => "NonReturning"@,
    }
}

/// Text of the code section of index `i`: its types entry and its code in
/// hexadecimal.
pub open spec fn section_text(i: nat, s: FullCodeSectionView) -> Seq<char> {
    "\n            FULL_CODE_SECTION_"@ + decimal_text(i) + ":\n                types_section:\n                    inputs: "@
        + decimal_text(s.types_section.inputs as nat) + ",\n                    outputs: "@
        + outputs_text(s.types_section.outputs) + ",\n                    max_stack_height: "@
        + decimal_text(s.types_section.max_stack_height as nat)
        + "\n                code_section: "@ + ("0x"@ + hex_text(s.code_section))
}

/// Text of a list of code sections: the text of each, in order.
pub open spec fn sections_text(arr: Seq<FullCodeSectionView>) -> Seq<char>
    decreases arr.len(),
{
    if arr.len() == 0 {
        Seq::empty()
    } else {
        sections_text(arr.drop_last()) + section_text((arr.len() - 1) as nat, arr.last())
    }
}

impl FullCodeSection {
    /// The text of the code sections `arr`, each with its index, its types
    /// entry and its code in hexadecimal.
    pub fn fmt(arr: &[FullCodeSection]) -> (formatted: String)
        ensures
            formatted@ == sections_text(arr@.map_values(|s: FullCodeSection| s@)),
    {
        let ghost views = arr@.map_values(|s: FullCodeSection| s@);
        let mut formatted = String::new();
        let mut i: usize = 0;
        while i < arr.len()
            invariant
                i <= arr@.len(),
                views == arr@.map_values(|s: FullCodeSection| s@),
                formatted@ == sections_text(views.take(i as int)),
            decreases arr@.len() - i,
        {
            let full_code_section = &arr[i];
            let mut code_section = String::from_str("0x");
            let code_hex = hex_encode(full_code_section.code_section.as_slice());
            code_section.append(code_hex.as_str());

            let outputs = match full_code_section.types_section.outputs {
                Some(x) => decimal_string(x as u64),
                None => String::from_str("NonReturning"),
            };

            let mut piece = String::from_str("\n            FULL_CODE_SECTION_");
            let index = decimal_string(i as u64);
            piece.append(index.as_str());
            piece.append(":\n                types_section:\n                    inputs: ");
            let inputs = decimal_string(full_code_section.types_section.inputs as u64);
            piece.append(inputs.as_str());
            piece.append(",\n                    outputs: ");
            piece.append(outputs.as_str());
            piece.append(",\n                    max_stack_height: ");
            let max_stack_height = decimal_string(
                full_code_section.types_section.max_stack_height as u64,
            );
            piece.append(max_stack_height.as_str());
            piece.append("\n                code_section: ");
            piece.append(code_section.as_str());

            proof {
                let next = views.take(i as int + 1);
                assert(next.drop_last() =~= views.take(i as int));
                assert(next.last() == views[i as int]);
            }
            formatted.append(piece.as_str());
            i = i + 1;
        }
        assert(views.take(i as int) =~= views);
        formatted
    }
}

/// The outputs of a returning section are shown as their number, and only
/// a non-returning section is shown as `NonReturning`: different outputs
/// never read the same.
pub proof fn lemma_outputs_text_injective(a: Option<u8>, b: Option<u8>)
    ensures
        a matches Some(x) ==> outputs_text(a) == decimal_text(x as nat),
        outputs_text(a) == outputs_text(b) ==> a == b,
{
    reveal_strlit("NonReturning");
    match a {
        Some(x) => {
            lemma_decimal_text_reads_back(x as nat);
            assert(decimal_text(x as nat)[0] != 'N');
        },
        None => {},
    }
    match b {
        Some(y) => {
            lemma_decimal_text_reads_back(y as nat);
            assert(decimal_text(y as nat)[0] != 'N');
        },
        None => {},
    }
    if let (Some(x), Some(y)) = (a, b) {
        lemma_decimal_text_injective(x as nat, y as nat);
    }
}

/// Each code section is shown after those before it: adding a section adds
/// its text, with its index, at the end.
pub proof fn lemma_sections_text_appends(arr: Seq<FullCodeSectionView>, s: FullCodeSectionView)
    ensures
        sections_text(arr.push(s)) == sections_text(arr) + section_text(arr.len(), s),
        sections_text(Seq::empty()) == Seq::<char>::empty(),
{
    assert(arr.push(s).drop_last() =~= arr);
}

} // verus!
