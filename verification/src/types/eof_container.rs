//! A parsed EOF container: its header and its sections.
use crate::text::{decimal_string, decimal_text, hex_encode, hex_text, list_string, list_text};
use crate::types::full_code_section::{sections_text, FullCodeSection, FullCodeSectionView};
use vstd::prelude::*;

verus! {

/// The header of a container, as read from the bytecode.
#[derive(Debug)]
pub struct Header {
    pub version: u8,
    pub types_size: u16,
    pub num_code_sections: u16,
    pub code_sizes: Vec<u16>,
    pub num_container_sections: u16,
    pub container_sizes: Vec<u16>,
    pub data_size: u16,
}

/// A container: its header, its code sections with their types, its
/// subcontainer sections and its data section.
#[derive(Debug)]
pub struct EOFContainer {
    pub header: Header,
    pub full_code_section: Vec<FullCodeSection>,
    pub container_section: Vec<Vec<u8>>,
    pub data_section: Vec<u8>,
}

/// The mathematical value of a `Header`.
pub struct HeaderView {
    pub version: u8,
    pub types_size: u16,
    pub num_code_sections: u16,
    pub code_sizes: Seq<u16>,
    pub num_container_sections: u16,
    pub container_sizes: Seq<u16>,
    pub data_size: u16,
}

/// The mathematical value of an `EOFContainer`.
pub struct EOFContainerView {
    pub header: HeaderView,
    pub full_code_section: Seq<FullCodeSectionView>,
    pub container_section: Seq<Seq<u8>>,
    pub data_section: Seq<u8>,
}

impl View for Header {
    type V = HeaderView;

    open spec fn view(&self) -> HeaderView {
        HeaderView {
            version: self.version,
            types_size: self.types_size,
            num_code_sections: self.num_code_sections,
            code_sizes: self.code_sizes@,
            num_container_sections: self.num_container_sections,
            container_sizes: self.container_sizes@,
            data_size: self.data_size,
        }
    }
}

impl View for EOFContainer {
    type V = EOFContainerView;

    open spec fn view(&self) -> EOFContainerView {
        EOFContainerView {
            header: self.header@,
            full_code_section: self.full_code_section@.map_values(|s: FullCodeSection| s@),
            container_section: self.container_section@.map_values(|c: Vec<u8>| c@),
            data_section: self.data_section@,
        }
    }
}

impl Default for EOFContainer {
    fn default() -> (c: Self)
        ensures
            c@ == (EOFContainerView {
                header: HeaderView {
                    version: 0,
                    types_size: 0,
                    num_code_sections: 0,
                    code_sizes: Seq::empty(),
                    num_container_sections: 0,
                    container_sizes: Seq::empty(),
                    data_size: 0,
                },
                full_code_section: Seq::empty(),
                container_section: Seq::empty(),
                data_section: Seq::empty(),
            }),
    {
        let c = EOFContainer {
            header: Header {
                version: 0,
                types_size: 0,
                num_code_sections: 0,
                code_sizes: Vec::new(),
                num_container_sections: 0,
                container_sizes: Vec::new(),
                data_size: 0,
            },
            full_code_section: Vec::new(),
            container_section: Vec::new(),
            data_section: Vec::new(),
        };
        assert(c@.full_code_section =~= Seq::empty());
        assert(c@.container_section =~= Seq::empty());
        c
    }
}

/// Text of the container section of index `j`.
pub open spec fn container_section_text(j: nat, c: Seq<u8>) -> Seq<char> {
    "\n            CONTAINER_SECTION_"@ + decimal_text(j) + ": 0x"@ + hex_text(c)
        + "\n                    "@
}

/// Text of a list of container sections, each with its index.
pub open spec fn container_sections_list_text(cs: Seq<Seq<u8>>) -> Seq<char>
    decreases cs.len(),
{
    if cs.len() == 0 {
        Seq::empty()
    } else {
        container_sections_list_text(cs.drop_last()) + container_section_text(
            (cs.len() - 1) as nat,
            cs.last(),
        )
    }
}

/// Text of the container sections: `None` when there is none.
pub open spec fn container_sections_text(cs: Seq<Seq<u8>>) -> Seq<char> {
    if cs.len() == 0 {
        "\n            CONTAINER_SECTION: None\n            "@
    } else {
        container_sections_list_text(cs)
    }
}

/// Text of a container: its header fields, its code sections, its container
/// sections and its data section in hexadecimal.
pub open spec fn container_text(c: EOFContainerView) -> Seq<char> {
    "\n            HEADER:\n                version: "@ + decimal_text(c.header.version as nat)
        + ",\n                types_size: "@ + decimal_text(c.header.types_size as nat)
        + "\n                num_code_sections: "@ + decimal_text(
        c.header.num_code_sections as nat,
    ) + ",\n                code_sizes: "@ + list_text(c.header.code_sizes)
        + ",\n                num_container_sections: "@ + decimal_text(
        c.header.num_container_sections as nat,
    ) + ",\n                container_sizes: "@ + list_text(c.header.container_sizes)
        + ",\n                data_size: "@ + decimal_text(c.header.data_size as nat)
        + "\n            "@ + sections_text(c.full_code_section) + "\n            "@
        + container_sections_text(c.container_section) + "\n            DATA_SECTION: "@ + (
    "0x"@ + hex_text(c.data_section)) + "\n            "@
}

impl EOFContainer {
    /// The text in which a container is displayed.
    pub fn to_display_string(&self) -> (text: String)
        ensures
            text@ == container_text(self@),
    {
        let mut data_section = String::from_str("0x");
        let data_hex = hex_encode(self.data_section.as_slice());
        data_section.append(data_hex.as_str());

        let ghost containers = self@.container_section;
        let mut container_sections = String::new();
        if self.container_section.len() == 0 {
            container_sections.append("\n            CONTAINER_SECTION: None\n            ");
        } else {
            let mut j: usize = 0;
            while j < self.container_section.len()
                invariant
                    j <= self.container_section@.len(),
                    containers == self@.container_section,
                    container_sections@ == container_sections_list_text(
                        containers.take(j as int),
                    ),
                decreases self.container_section@.len() - j,
            {
                let mut piece = String::from_str("\n            CONTAINER_SECTION_");
                let index = decimal_string(j as u64);
                piece.append(index.as_str());
                piece.append(": 0x");
                let hex = hex_encode(self.container_section[j].as_slice());
                piece.append(hex.as_str());
                piece.append("\n                    ");
                proof {
                    let next = containers.take(j as int + 1);
                    assert(next.drop_last() =~= containers.take(j as int));
                    assert(next.last() == containers[j as int]);
                }
                container_sections.append(piece.as_str());
                j = j + 1;
            }
            assert(containers.take(j as int) =~= containers);
        }

        let full_code_sections = FullCodeSection::fmt(self.full_code_section.as_slice());
        let code_sizes = list_string(&self.header.code_sizes);
        let container_sizes = list_string(&self.header.container_sizes);

        let mut text = String::from_str("\n            HEADER:\n                version: ");
        let version = decimal_string(self.header.version as u64);
        text.append(version.as_str());
        text.append(",\n                types_size: ");
        let types_size = decimal_string(self.header.types_size as u64);
        text.append(types_size.as_str());
        text.append("\n                num_code_sections: ");
        let num_code_sections = decimal_string(self.header.num_code_sections as u64);
        text.append(num_code_sections.as_str());
        text.append(",\n                code_sizes: ");
        text.append(code_sizes.as_str());
        text.append(",\n                num_container_sections: ");
        let num_container_sections = decimal_string(self.header.num_container_sections as u64);
        text.append(num_container_sections.as_str());
        text.append(",\n                container_sizes: ");
        text.append(container_sizes.as_str());
        text.append(",\n                data_size: ");
        let data_size = decimal_string(self.header.data_size as u64);
        text.append(data_size.as_str());
        text.append("\n            ");
        text.append(full_code_sections.as_str());
        text.append("\n            ");
        text.append(container_sections.as_str());
        text.append("\n            DATA_SECTION: ");
        text.append(data_section.as_str());
        text.append("\n            ");
        text
    }
}

/// Each container section is shown after those before it: adding a
/// section to a non-empty list adds its text, with its index, at the end;
/// a single section is shown with index 0; no section reads `None`.
pub proof fn lemma_container_sections_text_appends(cs: Seq<Seq<u8>>, x: Seq<u8>)
    ensures
        cs.len() > 0 ==> container_sections_text(cs.push(x)) == container_sections_text(cs)
            + container_section_text(cs.len(), x),
        container_sections_text(seq![x]) == container_section_text(0, x),
        container_sections_text(Seq::empty()) == "\n            CONTAINER_SECTION: None\n            "@,
{
    assert(cs.push(x).drop_last() =~= cs);
    let one = seq![x];
    assert(one.drop_last() =~= Seq::<Seq<u8>>::empty());
    assert(one.len() == 1);
    assert(one.last() == x);
    assert(container_sections_list_text(one.drop_last()) == Seq::<char>::empty());
    assert(container_sections_list_text(one) == container_sections_list_text(one.drop_last())
        + container_section_text(0, x));
    assert(Seq::<char>::empty() + container_section_text(0, x) =~= container_section_text(0, x));
}

} // verus!
