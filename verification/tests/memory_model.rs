use lifter::errors::AnalysisError;
use lifter::memory::{Memory, PhysicalMemory, Section, VirtualMemory, entry_point, to_physical};

fn section(name: &str, start: u64, block: Vec<u8>) -> Section {
    Section { name: name.to_string(), start, block }
}

fn two_section_memory() -> Memory {
    let mut mem = Memory::new();
    assert!(mem.insert_section(section(".text", 0x1000, (0..0x10).collect())));
    assert!(mem.insert_section(section(".data", 0x2000, (0..0x20).map(|b| b + 0x40).collect())));
    mem
}

#[test]
fn read_resolves_offset_inside_section() {
    let mem = two_section_memory();
    let (off, bytes) = mem.read(0x1008).expect("0x1008 lies inside the first section");
    assert_eq!(off, 8);
    assert_eq!(bytes, vec![8, 9, 10, 11, 12, 13, 14, 15]);
}

#[test]
fn read_reports_unmapped_address() {
    let mem = two_section_memory();
    assert!(mem.read(0x1900).is_none());
    assert!(mem.read(0x0FFF).is_none());
    assert!(mem.read(0x1010).is_none());
    assert!(mem.read(0x2020).is_none());
}

#[test]
fn read_second_section() {
    let mem = two_section_memory();
    let (off, bytes) = mem.read(0x201F).expect("the last byte of the second section is mapped");
    assert_eq!(off, 0x1F);
    assert_eq!(bytes, vec![0x5F]);
}

#[test]
fn insert_rejects_degenerate_sections() {
    let mut mem = Memory::new();
    assert!(!mem.insert_section(section(".empty", 0x1000, Vec::new())));
    assert!(!mem.insert_section(section(".huge", u64::MAX, vec![0, 0])));
    assert!(mem.read(0x1000).is_none());
}

#[test]
fn later_section_shadows_earlier() {
    let mut mem = Memory::new();
    assert!(mem.insert_section(section("a", 0x1000, vec![1, 1, 1, 1])));
    assert!(mem.insert_section(section("b", 0x1002, vec![9, 9])));
    let (off_a, bytes_a) = mem.read(0x1001).unwrap();
    assert_eq!((off_a, bytes_a), (1, vec![1, 1, 1]));
    let (off_b, bytes_b) = mem.read(0x1003).unwrap();
    assert_eq!((off_b, bytes_b), (1, vec![9]));
}

#[test]
fn translate_virtual_to_physical() {
    let mut mapping = rangemap::RangeMap::<u64, u64>::new();
    mapping.insert(0x1000..0x2000, 0x40_0000);
    let got: Option<PhysicalMemory> = to_physical(mapping, VirtualMemory(0x1500));
    assert_eq!(got.expect("the address is mapped").0, 0x40_0500);
}

#[test]
fn translate_unmapped_is_none() {
    let mut mapping = rangemap::RangeMap::<u64, u64>::new();
    mapping.insert(0x1000..0x2000, 0x40_0000);
    assert!(to_physical(mapping, VirtualMemory(0x2000)).is_none());
}

#[test]
fn malformed_image_is_reported() {
    assert!(matches!(Memory::from_binary(&[1, 2, 3]), Err(AnalysisError::MalformedImage)));
    assert!(matches!(entry_point(&[]), Err(AnalysisError::MalformedImage)));
}

fn minimal_elf(entry: u64) -> Vec<u8> {
    let mut b: Vec<u8> = vec![0x7F, b'E', b'L', b'F', 2, 1, 1, 0];
    b.extend_from_slice(&[0; 8]);
    b.extend_from_slice(&2u16.to_le_bytes());
    b.extend_from_slice(&0x3Eu16.to_le_bytes());
    b.extend_from_slice(&1u32.to_le_bytes());
    b.extend_from_slice(&entry.to_le_bytes());
    b.extend_from_slice(&0u64.to_le_bytes());
    b.extend_from_slice(&0u64.to_le_bytes());
    b.extend_from_slice(&0u32.to_le_bytes());
    b.extend_from_slice(&64u16.to_le_bytes());
    b.extend_from_slice(&56u16.to_le_bytes());
    b.extend_from_slice(&0u16.to_le_bytes());
    b.extend_from_slice(&64u16.to_le_bytes());
    b.extend_from_slice(&0u16.to_le_bytes());
    b.extend_from_slice(&0u16.to_le_bytes());
    b
}

#[test]
fn entry_point_of_a_parsed_image() {
    let bytes = minimal_elf(0x1161);
    assert_eq!(entry_point(&bytes).expect("the header parses"), 0x1161);
}

#[test]
fn sectionless_image_loads_empty() {
    let bytes = minimal_elf(0x1161);
    let mem = Memory::from_binary(&bytes).expect("the header parses");
    assert!(mem.read(0x1161).is_none());
    assert!(mem.read(0).is_none());
}

#[test]
fn dump_lists_sections_and_bytes() {
    let mut mem = Memory::new();
    assert!(mem.insert_section(section(".text", 0x1000, vec![0x41, 0x42, 0x00])));
    let expected = format!(
        "\nContents of section .text:\n 1000 414200{}AB.\n\n",
        " ".repeat(30)
    );
    assert_eq!(mem.dump(), expected);
}

#[test]
fn dump_full_line_groups_bytes() {
    let mut mem = Memory::new();
    let block: Vec<u8> = (0x30..0x40).collect();
    assert!(mem.insert_section(section("s", 0xAB0, block)));
    let expected = format!(
        "\nContents of section s:\n  AB0 30313233 34353637 38393A3B 3C3D3E3F 0123456789:;<=>?\n\n"
    );
    assert_eq!(mem.dump(), expected);
}
