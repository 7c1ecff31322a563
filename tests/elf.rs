use dang::elf::{
    decode_instructions, select_first_pc, ElfError, ElfInfo, SectionHeader, SymbolInfo, PC,
};

fn sym(name: &str, addr: u64, size: u64) -> SymbolInfo {
    SymbolInfo { name: name.to_string(), addr, size }
}

fn info() -> ElfInfo {
    let sections = vec![
        SectionHeader { name: ".data".to_string(), addr: 0x2000, size: 8, file_offset: 40 },
        SectionHeader { name: ".text".to_string(), addr: 0x1000, size: 16, file_offset: 4 },
    ];
    let symbols = vec![
        sym("", 0x10, 0),
        sym("main", 0x1008, 8),
        sym("_start", 0x1000, 4),
        sym("zero", 0, 0),
        sym("data_end", 0x2000, 0),
    ];
    ElfInfo::from_parts(0x1000, 1, 0xf3, sections, symbols, (0u8..48).collect()).unwrap()
}

#[test]
fn elf_info_keeps_named_symbols_sorted() {
    let i = info();
    assert!(i.is_32bit);
    let names: Vec<&str> = i.symbols.iter().map(|s| s.name.as_str()).collect();
    assert_eq!(names, vec!["_start", "main", "data_end"]);
    let t = i.text_section.unwrap();
    assert_eq!((t.addr, t.size, t.file_offset), (0x1000, 16, 4));
    assert_eq!(
        ElfInfo::from_parts(0, 1, 0x3e, vec![], vec![], vec![]).err(),
        Some(ElfError::NotRiscV)
    );
    assert!(ElfInfo::from_parts(0, 2, 0xf3, vec![], vec![], vec![]).unwrap().text_section.is_none());
}

#[test]
fn symbols_are_found_by_address() {
    let i = info();
    let (s, off) = i.find_symbol_at_address(0x1002).unwrap();
    assert_eq!((s.name.as_str(), off), ("_start", 2));
    // past the end of a sized symbol
    assert!(i.find_symbol_at_address(0x1005).is_none());
    let (s, off) = i.find_symbol_at_address(0x100f).unwrap();
    assert_eq!((s.name.as_str(), off), ("main", 7));
    // a zero-sized symbol reaches up to the next one
    let (s, off) = i.find_symbol_at_address(0x2345).unwrap();
    assert_eq!((s.name.as_str(), off), ("data_end", 0x345));
    assert!(i.find_symbol_at_address(0x10).is_none());
}

#[test]
fn instruction_bytes_come_from_text() {
    let i = info();
    assert_eq!(
        i.get_instruction_bytes_from_elf(PC::_32(0x1000)).unwrap(),
        (4u8..16).collect::<Vec<u8>>()
    );
    assert_eq!(
        i.get_instruction_bytes_from_elf(PC::_32(0x100c)).unwrap(),
        vec![16, 17, 18, 19, 0, 0, 0, 0, 0, 0, 0, 0]
    );
    assert_eq!(i.get_instruction_bytes_from_elf(PC::_32(0x1010)).err(), Some(ElfError::OutsideText));
    assert_eq!(i.get_instruction_bytes_from_elf(PC::_64(0xfff)).err(), Some(ElfError::OutsideText));
    let no_text = ElfInfo::from_parts(0, 1, 0xf3, vec![], vec![], vec![]).unwrap();
    assert_eq!(
        no_text.get_instruction_bytes_from_elf(PC::_32(0)).err(),
        Some(ElfError::NoTextSection)
    );
}

#[test]
fn decoding_a_window() {
    // addi x0, x0, 0 (32-bit), then zeros
    let mut bytes = vec![0x13, 0x00, 0x00, 0x00];
    bytes.extend_from_slice(&[0u8; 8]);
    let insts = decode_instructions(&bytes, PC::_32(0x100084)).unwrap();
    assert!(!insts.is_empty());
    assert_eq!(insts[0].pc().as_u64(), 0x100084);
    assert_eq!(insts[0].2, 4);
    // c.nop (0x0001): low bits 01, a 16-bit instruction
    let mut c = vec![0x01, 0x00];
    c.extend_from_slice(&[0u8; 10]);
    let insts = decode_instructions(&c, PC::_32(0x200)).unwrap();
    assert_eq!(insts.len(), 1);
    assert_eq!(insts[0].2, 2);
    assert!(matches!(
        decode_instructions(&[0u8; 12], PC::_32(0x100)),
        Err(ElfError::Undecodable)
    ));
}

#[test]
fn first_pc_prefers_start_then_main() {
    assert_eq!(select_first_pc(7, &vec![sym("main", 0x20, 0), sym("_start", 0x10, 0)]), 0x10);
    assert_eq!(select_first_pc(7, &vec![sym("main", 0x20, 0), sym("x", 0x10, 0)]), 0x20);
    assert_eq!(select_first_pc(7, &vec![sym("x", 0x10, 0)]), 7);
}

#[test]
fn pc_helpers() {
    assert!(PC::_32(4).nz());
    assert!(!PC::_64(0).nz());
    assert_eq!(PC::_64(0x1_0000_0005).as_u32(), 5);
    assert_eq!(PC::_32(5).as_u64(), 5);
    assert_eq!(PC::_32(5).add(3).as_u64(), 8);
}
