use harlan::hal::addr::PhysAddr;
use harlan::hal::frame::PhysRange;
use harlan::hal::pe::{
    code_sections, relocations, CodeRanges, PeError, BASE_RELOCATION_DIRECTORY, DATA_DIRECTORIES,
    DATA_DIRECTORY_SIZE, EXECUTABLE, LFANEW, MAGIC_PE32_PLUS, MAX_CODE_SECTIONS,
    NUMBER_OF_SECTIONS, OPTIONAL_HEADER, RELOCATION_ABSOLUTE, RELOCATION_BLOCK_HEADER,
    RELOCATION_DIR64, SECTION_CHARACTERISTICS, SECTION_SIZE, SECTION_VIRTUAL_ADDRESS,
    SECTION_VIRTUAL_SIZE, SIZE_OF_OPTIONAL_HEADER,
};

const SIGNATURE_AT: usize = 0x80;
const OPTIONAL_SIZE: usize = 240;

/// A PE32+ image with the sections given as `(virtual address, size,
/// characteristics)`, laid out like the ones the linker produces.
fn image_with(sections: &[(u32, u32, u32)]) -> Vec<u8> {
    let table = SIGNATURE_AT + (OPTIONAL_HEADER as usize) + OPTIONAL_SIZE;
    let mut image = vec![0u8; table + sections.len() * (SECTION_SIZE as usize) + 16];
    image[(LFANEW as usize)..(LFANEW as usize) + 4]
        .copy_from_slice(&(SIGNATURE_AT as u32).to_le_bytes());
    image[SIGNATURE_AT..SIGNATURE_AT + 4].copy_from_slice(b"PE\0\0");
    let coff = SIGNATURE_AT + (NUMBER_OF_SECTIONS as usize);
    image[coff..coff + 2].copy_from_slice(&(sections.len() as u16).to_le_bytes());
    let size_at = SIGNATURE_AT + (SIZE_OF_OPTIONAL_HEADER as usize);
    image[size_at..size_at + 2].copy_from_slice(&(OPTIONAL_SIZE as u16).to_le_bytes());
    let magic_at = SIGNATURE_AT + (OPTIONAL_HEADER as usize);
    image[magic_at..magic_at + 2].copy_from_slice(&MAGIC_PE32_PLUS.to_le_bytes());
    for (index, &(address, size, characteristics)) in sections.iter().enumerate() {
        let header = table + index * (SECTION_SIZE as usize);
        let put = |image: &mut [u8], at: usize, value: u32| {
            image[header + at..header + at + 4].copy_from_slice(&value.to_le_bytes());
        };
        put(&mut image, (SECTION_VIRTUAL_ADDRESS as usize), address);
        put(&mut image, (SECTION_VIRTUAL_SIZE as usize), size);
        put(
            &mut image,
            (SECTION_CHARACTERISTICS as usize),
            characteristics,
        );
    }
    image
}

const CODE: u32 = EXECUTABLE | 0x4000_0000 | 0x20;
const DATA: u32 = 0x4000_0000 | 0x8000_0000;
const READ_ONLY: u32 = 0x4000_0000;

#[test]
fn finds_the_code_and_leaves_the_data_out() {
    // The layout of this repo's own image.
    let image = image_with(&[
        (0x1000, 217_891, CODE),
        (0x37000, 52_157, READ_ONLY),
        (0x44000, 20_840, DATA),
        (0x4A000, 64, READ_ONLY),
        (0x4B000, 1408, READ_ONLY),
    ]);
    let code = code_sections(&image).unwrap();
    assert_eq!(code.len(), 1);
    assert_eq!(
        code.iter().copied().collect::<Vec<_>>(),
        [(0x1000, 217_891)]
    );
    assert_eq!(code.total_bytes(), 217_891);
}

#[test]
fn keeps_every_executable_section_in_order() {
    let image = image_with(&[
        (0x1000, 0x2000, CODE),
        (0x3000, 0x1000, DATA),
        (0x4000, 0x1000, CODE),
    ]);
    let code = code_sections(&image).unwrap();
    assert_eq!(
        code.iter().copied().collect::<Vec<_>>(),
        [(0x1000, 0x2000), (0x4000, 0x1000)]
    );
}

#[test]
fn an_executable_section_with_no_bytes_is_not_code() {
    let image = image_with(&[(0x1000, 0, CODE), (0x2000, 0x1000, CODE)]);
    let code = code_sections(&image).unwrap();
    assert_eq!(
        code.iter().copied().collect::<Vec<_>>(),
        [(0x2000, 0x1000)]
    );
}

#[test]
fn sections_become_ranges_where_the_firmware_put_the_image() {
    let image = image_with(&[(0x1000, 0x2000, CODE), (0x4000, 0x1000, CODE)]);
    let base = PhysAddr::new(0x1DDD_3000);
    let placed = code_sections(&image).unwrap().at(base).unwrap();
    assert_eq!(placed.len(), 2);
    assert_eq!(
        placed.iter().copied().collect::<Vec<_>>(),
        [
            PhysRange::new(PhysAddr::new(0x1DDD_4000), 0x2000),
            PhysRange::new(PhysAddr::new(0x1DDD_7000), 0x1000),
        ]
    );
    assert_eq!(placed.total_bytes(), 0x3000);
    // A base that would push the code past the end of memory is not a
    // range anyone should map.
    assert_eq!(
        code_sections(&image).unwrap().at(PhysAddr::new(u64::MAX)),
        None
    );
}

#[test]
fn a_set_of_ranges_can_be_built_by_hand_up_to_the_limit() {
    let one = PhysRange::new(PhysAddr::new(0x1000), 0x2000);
    let built = CodeRanges::new(&[one]).unwrap();
    assert_eq!(built.iter().copied().collect::<Vec<_>>(), [one]);
    assert_eq!(built.total_bytes(), 0x2000);
    let too_many = vec![one; MAX_CODE_SECTIONS + 1];
    assert_eq!(CodeRanges::new(&too_many), None);
}

#[test]
fn an_image_without_code_is_refused() {
    let image = image_with(&[(0x1000, 0x1000, DATA)]);
    assert_eq!(code_sections(&image), Err(PeError::NoCode));
}

#[test]
fn more_code_sections_than_there_is_room_for_is_refused() {
    let mut sections = Vec::new();
    for index in 0..MAX_CODE_SECTIONS + 1 {
        sections.push(((index as u32 + 1) * 0x1000, 0x1000, CODE));
    }
    assert_eq!(
        code_sections(&image_with(&sections)),
        Err(PeError::TooManySections)
    );
}

#[test]
fn a_header_pointing_outside_the_image_is_refused_instead_of_read() {
    let good = image_with(&[(0x1000, 0x1000, CODE)]);
    assert_eq!(code_sections(&[]), Err(PeError::Truncated));
    // The section table is announced but not there.
    assert_eq!(
        code_sections(&good[..good.len() - 20]),
        Err(PeError::Truncated)
    );
    // `e_lfanew` past the end.
    let mut wild = good.clone();
    wild[(LFANEW as usize)..(LFANEW as usize) + 4].copy_from_slice(&u32::MAX.to_le_bytes());
    assert_eq!(code_sections(&wild), Err(PeError::Truncated));
}

/// Writes a relocation table into `image` and points the directory at
/// it. `blocks` is `(page rva, [(kind, offset)])`.
fn with_relocations(
    mut image: Vec<u8>,
    blocks: &[(u32, Vec<(u16, u16)>)],
) -> Vec<u8> {
    let table = image.len();
    let mut bytes = Vec::new();
    for (page, entries) in blocks {
        let size = RELOCATION_BLOCK_HEADER + entries.len() * 2;
        bytes.extend_from_slice(&page.to_le_bytes());
        bytes.extend_from_slice(&(size as u32).to_le_bytes());
        for (kind, offset) in entries {
            bytes.extend_from_slice(&((kind << 12) | offset).to_le_bytes());
        }
    }
    let directory = SIGNATURE_AT
        + (DATA_DIRECTORIES as usize)
        + (BASE_RELOCATION_DIRECTORY as usize) * (DATA_DIRECTORY_SIZE as usize);
    image[directory..directory + 4].copy_from_slice(&(table as u32).to_le_bytes());
    image[directory + 4..directory + 8].copy_from_slice(&(bytes.len() as u32).to_le_bytes());
    image.extend_from_slice(&bytes);
    image
}

fn one_code_section() -> Vec<u8> {
    image_with(&[(0x1000, 0x2000, CODE)])
}

#[test]
fn relocations_list_every_absolute_address_and_skip_the_padding() {
    let image = with_relocations(
        one_code_section(),
        &[
            (
                0x1000,
                vec![
                    (RELOCATION_DIR64, 0x18),
                    (RELOCATION_ABSOLUTE, 0),
                    (RELOCATION_DIR64, 0x20),
                ],
            ),
            (0x2000, vec![(RELOCATION_DIR64, 0x8)]),
        ],
    );
    let found: Vec<u64> = relocations(&image).unwrap().iter();
    assert_eq!(found, [0x1018, 0x1020, 0x2008]);
}

#[test]
fn an_image_that_cannot_be_moved_says_so() {
    assert_eq!(
        relocations(&one_code_section()),
        Err(PeError::NotRelocatable)
    );
}

#[test]
fn a_relocation_kind_we_cannot_apply_is_refused() {
    // 3 is HIGHLOW, for 32-bit images.
    let image = with_relocations(one_code_section(), &[(0x1000, vec![(3, 0x10)])]);
    assert_eq!(relocations(&image), Err(PeError::UnsupportedRelocation(3)));
}

#[test]
fn a_relocation_table_that_does_not_fit_is_refused_instead_of_walked() {
    let image = with_relocations(
        one_code_section(),
        &[(0x1000, vec![(RELOCATION_DIR64, 0x10)])],
    );
    // The table is announced longer than the image.
    let directory = SIGNATURE_AT
        + (DATA_DIRECTORIES as usize)
        + (BASE_RELOCATION_DIRECTORY as usize) * (DATA_DIRECTORY_SIZE as usize);
    let mut too_long = image.clone();
    too_long[directory + 4..directory + 8].copy_from_slice(&u32::MAX.to_le_bytes());
    assert_eq!(relocations(&too_long), Err(PeError::Truncated));
    let table =
        u32::from_le_bytes(image[directory..directory + 4].try_into().unwrap()) as usize;
    // A block that claims to run past the end of the table. Even, so
    // that it is its length that rejects it and not its parity.
    let mut bad_block = image.clone();
    bad_block[table + 4..table + 8].copy_from_slice(&1000u32.to_le_bytes());
    assert_eq!(relocations(&bad_block), Err(PeError::Truncated));
    // And one whose size would cut an entry in half. Followed by a
    // block that does parse, so that only the odd size can reject it.
    let mut odd = one_code_section();
    let raw = {
        let mut bytes = Vec::new();
        bytes.extend_from_slice(&0x1000u32.to_le_bytes());
        bytes.extend_from_slice(&9u32.to_le_bytes()); // one byte of entries
        bytes.push(0);
        bytes.extend_from_slice(&0x2000u32.to_le_bytes());
        bytes.extend_from_slice(&8u32.to_le_bytes()); // a block with none
        bytes
    };
    let at = odd.len();
    odd[directory..directory + 4].copy_from_slice(&(at as u32).to_le_bytes());
    odd[directory + 4..directory + 8].copy_from_slice(&(raw.len() as u32).to_le_bytes());
    odd.extend_from_slice(&raw);
    assert_eq!(relocations(&odd), Err(PeError::Truncated));
}

#[test]
fn something_that_is_not_a_pe32_plus_image_is_refused() {
    let mut no_signature = image_with(&[(0x1000, 0x1000, CODE)]);
    no_signature[SIGNATURE_AT] = b'X';
    assert_eq!(code_sections(&no_signature), Err(PeError::NotPe32Plus));

    let mut pe32 = image_with(&[(0x1000, 0x1000, CODE)]);
    let magic_at = SIGNATURE_AT + (OPTIONAL_HEADER as usize);
    pe32[magic_at..magic_at + 2].copy_from_slice(&0x10Bu16.to_le_bytes());
    assert_eq!(code_sections(&pe32), Err(PeError::NotPe32Plus));
}
