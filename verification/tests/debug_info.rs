use gimli::write::{
    Address, AttributeValue, DwarfUnit, EndianVec, LineProgram, LineString, Range, RangeList,
    Sections,
};
use linux_debugger::dwarf::{Attr, DwarfImage, LineFile, LineRow};
use linux_debugger::elf_debug_info::{
    bounds, collect_ranges, file_is_meant, file_path, look_at_row, ranges_cover, DebugParser,
    ElfDebugInfo, RowStep,
};
use linux_debugger::range_table::RangeTable;

/// An ELF file with the given sections.
fn elf(sections: &[(&str, Vec<u8>)]) -> Vec<u8> {
    let mut file = object::write::Object::new(
        object::BinaryFormat::Elf,
        object::Architecture::X86_64,
        object::Endianness::Little,
    );
    for (name, data) in sections {
        let id = file.add_section(
            Vec::new(),
            name.as_bytes().to_vec(),
            object::SectionKind::Debug,
        );
        file.set_section_data(id, data.clone(), 1);
    }
    file.write().unwrap()
}

/// A program whose functions are given by a length, by an end and by a list of ranges.
///
/// - `main` at 0x1000..0x1040, lines 3, 4, 5, 4
/// - `tail` at 0x1040..0x1050, line 9
/// - `split` at 0x1050..0x1058 and 0x1060..0x1068, lines 12 and 13
fn program() -> Vec<u8> {
    let encoding = gimli::Encoding {
        format: gimli::Format::Dwarf32,
        version: 4,
        address_size: 8,
    };
    let mut dwarf = DwarfUnit::new(encoding);
    let mut lines = LineProgram::new(
        encoding,
        gimli::LineEncoding::default(),
        LineString::String(b"/build".to_vec()),
        None,
        LineString::String(b"main.c".to_vec()),
        None,
    );
    let dir = lines.add_directory(LineString::String(b"src".to_vec()));
    let file = lines.add_file(LineString::String(b"main.c".to_vec()), dir, None);
    lines.begin_sequence(Some(Address::Constant(0x1000)));
    for (offset, line) in [
        (0x00, 3),
        (0x08, 4),
        (0x10, 5),
        (0x20, 4),
        (0x40, 9),
        (0x50, 12),
        (0x60, 13),
    ] {
        lines.row().address_offset = offset;
        lines.row().file = file;
        lines.row().line = line;
        lines.generate_row();
    }
    lines.end_sequence(0x68);
    dwarf.unit.line_program = lines;

    let root = dwarf.unit.root();
    let cu = dwarf.unit.get_mut(root);
    cu.set(
        gimli::DW_AT_low_pc,
        AttributeValue::Address(Address::Constant(0x1000)),
    );
    cu.set(gimli::DW_AT_high_pc, AttributeValue::Udata(0x68));

    let main = dwarf.unit.add(root, gimli::DW_TAG_subprogram);
    let entry = dwarf.unit.get_mut(main);
    entry.set(gimli::DW_AT_name, AttributeValue::String(b"main".to_vec()));
    entry.set(
        gimli::DW_AT_low_pc,
        AttributeValue::Address(Address::Constant(0x1000)),
    );
    entry.set(gimli::DW_AT_high_pc, AttributeValue::Udata(0x40));

    let tail = dwarf.unit.add(root, gimli::DW_TAG_subprogram);
    let entry = dwarf.unit.get_mut(tail);
    entry.set(gimli::DW_AT_name, AttributeValue::String(b"tail".to_vec()));
    entry.set(
        gimli::DW_AT_low_pc,
        AttributeValue::Address(Address::Constant(0x1040)),
    );
    entry.set(
        gimli::DW_AT_high_pc,
        AttributeValue::Address(Address::Constant(0x1050)),
    );

    let ranges = dwarf.unit.ranges.add(RangeList(vec![
        Range::OffsetPair {
            begin: 0x50,
            end: 0x58,
        },
        Range::OffsetPair {
            begin: 0x60,
            end: 0x68,
        },
    ]));
    let split = dwarf.unit.add(root, gimli::DW_TAG_subprogram);
    let entry = dwarf.unit.get_mut(split);
    entry.set(gimli::DW_AT_name, AttributeValue::String(b"split".to_vec()));
    entry.set(gimli::DW_AT_ranges, AttributeValue::RangeListRef(ranges));

    let mut sections = Sections::new(EndianVec::new(gimli::LittleEndian));
    dwarf.write(&mut sections).unwrap();
    let mut data: Vec<(&str, Vec<u8>)> = Vec::new();
    sections
        .for_each(|id, section| {
            data.push((id.name(), section.slice().to_vec()));
            Ok::<(), gimli::write::Error>(())
        })
        .unwrap();
    elf(&data)
}

#[test]
fn finds_the_line_of_an_address() {
    let info = ElfDebugInfo::new(&program()).unwrap();
    let line = |pc| info.pc_to_file_line(pc).unwrap();
    assert_eq!(line(0x1000), Some(("src/main.c".to_string(), 3)));
    assert_eq!(line(0x1007), Some(("src/main.c".to_string(), 3)));
    assert_eq!(line(0x1008), Some(("src/main.c".to_string(), 4)));
    assert_eq!(line(0x103f), Some(("src/main.c".to_string(), 4)));
    assert_eq!(line(0x1067), Some(("src/main.c".to_string(), 13)));
    assert_eq!(line(0x1068), None);
    assert_eq!(line(0xfff), None);
}

#[test]
fn finds_the_function_of_an_address() {
    let info = ElfDebugInfo::new(&program()).unwrap();
    let name = |pc| info.pc_to_function(pc).unwrap();
    assert_eq!(name(0x1000), Some("main".to_string()));
    assert_eq!(name(0x103f), Some("main".to_string()));
    assert_eq!(name(0x1040), Some("tail".to_string()));
    assert_eq!(name(0x1050), Some("split".to_string()));
    assert_eq!(name(0x1059), None);
    assert_eq!(name(0x1060), Some("split".to_string()));
    assert_eq!(name(0x2000), None);
}

#[test]
fn gives_the_ranges_of_a_function() {
    let info = ElfDebugInfo::new(&program()).unwrap();
    let ranges = |pc| info.get_function_ranges(pc).unwrap();
    assert_eq!(ranges(0x1008), Some(vec![(0x1000, 0x1040)]));
    assert_eq!(ranges(0x1044), Some(vec![(0x1040, 0x1050)]));
    assert_eq!(
        ranges(0x1061),
        Some(vec![(0x1050, 0x1058), (0x1060, 0x1068)])
    );
    assert_eq!(ranges(0x2000), None);
}

#[test]
fn lists_line_addresses_in_ranges_once_each() {
    let info = ElfDebugInfo::new(&program()).unwrap();
    assert_eq!(
        info.get_line_addresses_in_ranges(&[(0x1000, 0x1040)], 0x1008)
            .unwrap(),
        vec![0x1000, 0x1010, 0x1020]
    );
    assert_eq!(
        info.get_line_addresses_in_ranges(&[(0x1000, 0x1010), (0x1008, 0x1050)], 0)
            .unwrap(),
        vec![0x1000, 0x1008, 0x1010, 0x1020, 0x1040]
    );
    assert_eq!(
        info.get_line_addresses_in_ranges(&[], 0).unwrap(),
        Vec::<u64>::new()
    );
}

#[test]
fn finds_the_addresses_of_a_line() {
    let info = ElfDebugInfo::new(&program()).unwrap();
    assert_eq!(
        info.file_line_to_addr("main.c", 4).unwrap(),
        vec![0x1008, 0x1020]
    );
    assert_eq!(
        info.file_line_to_addr("src/main.c", 9).unwrap(),
        vec![0x1040]
    );
    assert_eq!(
        info.file_line_to_addr("other.c", 4).unwrap(),
        Vec::<u64>::new()
    );
    assert_eq!(
        info.file_line_to_addr("main.c", 400).unwrap(),
        Vec::<u64>::new()
    );
}

#[test]
fn the_end_of_a_file_name_finds_no_less() {
    let info = ElfDebugInfo::new(&program()).unwrap();
    let whole = info.file_line_to_addr("src/main.c", 4).unwrap();
    assert_eq!(whole, vec![0x1008, 0x1020]);
    for name in ["main.c", "n.c", ""] {
        let found = info.file_line_to_addr(name, 4).unwrap();
        assert!(whole.iter().all(|addr| found.contains(addr)));
    }
    assert!(info.file_line_to_addr("lib/main.c", 4).unwrap().is_empty());
}

#[test]
fn the_parser_gives_the_same_answers() {
    let bytes = program();
    let parser = DebugParser::new(&bytes).unwrap();
    assert_eq!(
        parser.pc_to_file_line(0x1040).unwrap(),
        Some(("src/main.c".to_string(), 9))
    );
    assert_eq!(
        parser.pc_to_function(0x1040).unwrap(),
        Some("tail".to_string())
    );
    assert_eq!(
        parser.get_function_ranges(0x1040).unwrap(),
        Some(vec![(0x1040, 0x1050)])
    );
    assert_eq!(
        parser
            .get_line_addresses_in_ranges(&[(0x1040, 0x1050)], 0)
            .unwrap(),
        vec![0x1040]
    );
    assert_eq!(
        parser.file_line_to_addr("main.c", 12).unwrap(),
        vec![0x1050]
    );
}

/// A unit of one function whose ranges are given by their number in the unit's table.
fn program_with_numbered_ranges() -> Vec<u8> {
    let abbrev = vec![
        0x01, 0x11, 0x01, 0x74, 0x17, 0x00, 0x00, 0x02, 0x2e, 0x00, 0x03, 0x08, 0x55, 0x23, 0x00,
        0x00, 0x00,
    ];
    let mut body: Vec<u8> = vec![0x05, 0x00, 0x01, 0x08, 0x00, 0x00, 0x00, 0x00];
    body.extend_from_slice(&[0x01, 0x0c, 0x00, 0x00, 0x00]);
    body.push(0x02);
    body.extend_from_slice(b"spun\0");
    body.push(0x00);
    body.push(0x00);
    let mut info = (body.len() as u32).to_le_bytes().to_vec();
    info.extend_from_slice(&body);

    let mut lists: Vec<u8> = vec![0x05, 0x00, 0x08, 0x00, 0x01, 0x00, 0x00, 0x00];
    lists.extend_from_slice(&4u32.to_le_bytes());
    lists.push(0x07);
    lists.extend_from_slice(&0x3000u64.to_le_bytes());
    lists.push(0x20);
    lists.push(0x00);
    let mut rnglists = (lists.len() as u32).to_le_bytes().to_vec();
    rnglists.extend_from_slice(&lists);
    elf(&[
        (".debug_abbrev", abbrev),
        (".debug_info", info),
        (".debug_rnglists", rnglists),
    ])
}

#[test]
fn finds_ranges_by_their_number() {
    let info = ElfDebugInfo::new(&program_with_numbered_ranges()).unwrap();
    assert_eq!(
        info.pc_to_function(0x3010).unwrap(),
        Some("spun".to_string())
    );
    assert_eq!(
        info.get_function_ranges(0x3010).unwrap(),
        Some(vec![(0x3000, 0x3020)])
    );
    assert_eq!(info.pc_to_function(0x3020).unwrap(), None);
    // The unit has no line program.
    assert_eq!(info.pc_to_file_line(0x3010).unwrap(), None);
    assert_eq!(
        info.file_line_to_addr("main.c", 1).unwrap(),
        Vec::<u64>::new()
    );
}

/// The same unit with offsets of eight bytes and this one in its table.
fn program_with_wide_ranges(offset: u64) -> Vec<u8> {
    let abbrev = vec![
        0x01, 0x11, 0x01, 0x74, 0x17, 0x00, 0x00, 0x02, 0x2e, 0x00, 0x03, 0x08, 0x55, 0x23, 0x00,
        0x00, 0x00,
    ];
    let mut body: Vec<u8> = vec![0x05, 0x00, 0x01, 0x08];
    body.extend_from_slice(&0u64.to_le_bytes());
    body.push(0x01);
    body.extend_from_slice(&20u64.to_le_bytes());
    body.push(0x02);
    body.extend_from_slice(b"spun\0");
    body.push(0x00);
    body.push(0x00);
    let mut info = vec![0xff; 4];
    info.extend_from_slice(&(body.len() as u64).to_le_bytes());
    info.extend_from_slice(&body);

    let mut lists: Vec<u8> = vec![0x05, 0x00, 0x08, 0x00, 0x01, 0x00, 0x00, 0x00];
    lists.extend_from_slice(&offset.to_le_bytes());
    lists.push(0x07);
    lists.extend_from_slice(&0x3000u64.to_le_bytes());
    lists.push(0x20);
    lists.push(0x00);
    let mut rnglists = vec![0xff; 4];
    rnglists.extend_from_slice(&(lists.len() as u64).to_le_bytes());
    rnglists.extend_from_slice(&lists);
    elf(&[
        (".debug_abbrev", abbrev),
        (".debug_info", info),
        (".debug_rnglists", rnglists),
    ])
}

#[test]
fn a_wide_table_gives_offsets_of_eight_bytes() {
    let info = ElfDebugInfo::new(&program_with_wide_ranges(8)).unwrap();
    assert_eq!(
        info.get_function_ranges(0x3010).unwrap(),
        Some(vec![(0x3000, 0x3020)])
    );
}

#[test]
fn an_offset_that_is_too_large_gives_no_ranges() {
    let info = ElfDebugInfo::new(&program_with_wide_ranges(u64::MAX)).unwrap();
    assert_eq!(info.get_function_ranges(0x3010).unwrap(), None);
    assert_eq!(info.pc_to_function(0x3010).unwrap(), None);
}

#[test]
fn a_range_table_is_read_by_number() {
    let data = [9, 9, 1, 2, 0, 0, 0, 0, 3, 4, 5];
    let narrow = RangeTable { data: &data, little_endian: true, base: 2, wide: false };
    assert_eq!(narrow.offset(0), Some(2 + 0x0201));
    assert_eq!(narrow.offset(1), Some(2 + 0x0403_0000));
    assert_eq!(narrow.offset(2), None);
    assert_eq!(narrow.offset(u64::MAX), None);
    let big = RangeTable { little_endian: false, ..narrow };
    assert_eq!(big.offset(0), Some(2 + 0x0102_0000));
    assert_eq!(big.offset(1), Some(2 + 0x0304));
    let wide = RangeTable { wide: true, ..narrow };
    assert_eq!(wide.offset(0), Some(2 + 0x0403_0000_0000_0201));
    assert_eq!(wide.offset(1), None);
    let past = RangeTable { base: 12, ..narrow };
    assert_eq!(past.offset(0), None);
    let full = [0xff; 9];
    let overflow = RangeTable { data: &full, little_endian: true, base: 1, wide: true };
    assert_eq!(overflow.offset(0), None);
    let just = RangeTable { base: 0, ..overflow };
    assert_eq!(just.offset(0), Some(u64::MAX));
}

/// A unit at 0x1000..0x1040 whose first line is advanced from one by the given instruction.
fn program_with_advance(advance: &[u8]) -> Vec<u8> {
    let abbrev = vec![
        0x01, 0x11, 0x00, 0x10, 0x17, 0x11, 0x01, 0x12, 0x0f, 0x00, 0x00, 0x00,
    ];
    let mut body: Vec<u8> = vec![0x04, 0x00, 0x00, 0x00, 0x00, 0x00, 0x08];
    body.extend_from_slice(&[0x01, 0x00, 0x00, 0x00, 0x00]);
    body.extend_from_slice(&0x1000u64.to_le_bytes());
    body.push(0x40);
    let mut info = (body.len() as u32).to_le_bytes().to_vec();
    info.extend_from_slice(&body);

    let mut header: Vec<u8> = vec![0x01, 0x01, 0x01, 0xfb, 0x0e, 0x0d];
    header.extend_from_slice(&[0, 1, 1, 1, 1, 0, 0, 0, 1, 0, 0, 1]);
    header.push(0x00);
    header.extend_from_slice(b"a.c\0\0\0\0\0");
    let mut lines: Vec<u8> = vec![0x04, 0x00];
    lines.extend_from_slice(&(header.len() as u32).to_le_bytes());
    lines.extend_from_slice(&header);
    lines.extend_from_slice(&[0x00, 0x09, 0x02]);
    lines.extend_from_slice(&0x1000u64.to_le_bytes());
    lines.extend_from_slice(advance);
    lines.extend_from_slice(&[0x01, 0x02, 0x40, 0x00, 0x01, 0x01]);
    let mut line = (lines.len() as u32).to_le_bytes().to_vec();
    line.extend_from_slice(&lines);
    elf(&[
        (".debug_abbrev", abbrev),
        (".debug_info", info),
        (".debug_line", line),
    ])
}

#[test]
fn a_line_program_advances_lines() {
    let info = ElfDebugInfo::new(&program_with_advance(&[0x03, 0x04])).unwrap();
    assert_eq!(
        info.pc_to_file_line(0x1000).unwrap(),
        Some(("a.c".to_string(), 5))
    );
    assert_eq!(info.file_line_to_addr("a.c", 5).unwrap(), vec![0x1000]);
    // A row that was taken back to line zero has no line.
    let mut back = vec![0x03, 0x81];
    back.extend_from_slice(&[0x80; 8]);
    back.push(0x7f);
    let info = ElfDebugInfo::new(&program_with_advance(&back)).unwrap();
    assert_eq!(info.pc_to_file_line(0x1000).unwrap(), None);
    assert_eq!(
        info.get_line_addresses_in_ranges(&[(0x1000, 0x1040)], 0)
            .unwrap(),
        vec![0x1000]
    );
}

#[test]
fn a_line_program_that_cannot_be_run_is_an_error() {
    let mut back = vec![0x03];
    back.extend_from_slice(&[0x80; 9]);
    back.push(0x7f);
    let info = ElfDebugInfo::new(&program_with_advance(&back)).unwrap();
    let fault = "Line advance is out of range";
    assert_eq!(info.pc_to_file_line(0x1000).err().unwrap().message(), fault);
    assert_eq!(
        info.file_line_to_addr("a.c", 1).err().unwrap().message(),
        fault
    );
    assert_eq!(
        info.get_line_addresses_in_ranges(&[(0x1000, 0x1040)], 0)
            .err()
            .unwrap()
            .message(),
        fault
    );
    // The program is not run where the unit does not cover the address.
    assert_eq!(info.pc_to_file_line(0x2000).unwrap(), None);
}

#[test]
fn a_file_that_is_no_program_is_refused() {
    let error = ElfDebugInfo::new(b"not a program").err().unwrap();
    assert_eq!(error.message(), "parse object file");
    assert_eq!(error.chain.len(), 2);
    assert!(DebugParser::new(&[]).is_err());
}

#[test]
fn a_program_without_debugging_information_says_nothing() {
    let info = ElfDebugInfo::new(&elf(&[])).unwrap();
    assert_eq!(info.pc_to_file_line(0x1000).unwrap(), None);
    assert_eq!(info.pc_to_function(0x1000).unwrap(), None);
    assert_eq!(info.get_function_ranges(0x1000).unwrap(), None);
    assert_eq!(
        info.get_line_addresses_in_ranges(&[(0, 0x2000)], 0)
            .unwrap(),
        Vec::<u64>::new()
    );
}

#[test]
fn an_unreadable_unit_is_an_error() {
    let mut info: Vec<u8> = 7u32.to_le_bytes().to_vec();
    info.extend_from_slice(&[0x63, 0x00, 0, 0, 0, 0, 0]);
    let bytes = elf(&[(".debug_info", info), (".debug_abbrev", vec![0])]);
    let info = ElfDebugInfo::new(&bytes).unwrap();
    let error = info.pc_to_function(0).err().unwrap();
    assert_eq!(error.chain.len(), 1);
    assert!(info.pc_to_file_line(0).is_err());
    assert!(info.get_function_ranges(0).is_err());
    assert!(info.get_line_addresses_in_ranges(&[], 0).is_err());
    assert!(info.file_line_to_addr("a.c", 1).is_err());
}

#[test]
fn an_unreadable_entry_ends_the_walk() {
    // The entry has an abbreviation that is not there.
    let mut body: Vec<u8> = vec![0x05, 0x00, 0x01, 0x08, 0x00, 0x00, 0x00, 0x00];
    body.extend_from_slice(&[0x01, 0x0c, 0x00, 0x00, 0x00]);
    body.push(0x09);
    let mut info = (body.len() as u32).to_le_bytes().to_vec();
    info.extend_from_slice(&body);
    let abbrev = vec![
        0x01, 0x11, 0x01, 0x74, 0x17, 0x00, 0x00, 0x02, 0x2e, 0x00, 0x03, 0x08, 0x55, 0x23, 0x00,
        0x00, 0x00,
    ];
    let bytes = elf(&[(".debug_info", info), (".debug_abbrev", abbrev)]);
    let info = ElfDebugInfo::new(&bytes).unwrap();
    assert!(info.pc_to_function(0x1000).is_err());
}

#[test]
fn sections_are_found_by_name() {
    let image = DwarfImage::load(&elf(&[(".debug_str", vec![1, 2, 3])])).unwrap();
    assert!(image.little_endian);
    assert_eq!(image.section(".debug_str"), &[1, 2, 3]);
    assert_eq!(image.section(".debug_info"), &[] as &[u8]);
    assert_eq!(image.section(".text"), &[] as &[u8]);
}

#[test]
fn ranges_include_their_start_and_not_their_end() {
    assert!(ranges_cover(&[(4, 8)], 4));
    assert!(ranges_cover(&[(0, 2), (4, 8)], 7));
    assert!(!ranges_cover(&[(4, 8)], 8));
    assert!(!ranges_cover(&[(4, 8)], 3));
    assert!(!ranges_cover(&[], 0));
}

#[test]
fn bounds_come_from_both_addresses() {
    assert_eq!(bounds(Attr::Addr(16), Attr::Addr(32)), vec![(16, 32)]);
    assert_eq!(bounds(Attr::Addr(16), Attr::Udata(8)), vec![(16, 24)]);
    assert_eq!(bounds(Attr::Missing, Attr::Udata(8)), vec![]);
    assert_eq!(bounds(Attr::Addr(16), Attr::Missing), vec![]);
    assert_eq!(bounds(Attr::Addr(16), Attr::Other), vec![]);
}

#[test]
fn ranges_are_read_up_to_the_first_that_cannot_be() {
    assert_eq!(collect_ranges(&[Some((1, 2)), Some((3, 4))]), vec![(1, 2), (3, 4)]);
    assert_eq!(collect_ranges(&[Some((1, 2)), None, Some((3, 4))]), vec![(1, 2)]);
}

fn line_file(name: &str, index: u64, dir: Option<&str>) -> LineFile {
    LineFile {
        name: Ok(name.to_string()),
        directory_index: index,
        directory: dir.map(|dir| Ok(dir.to_string())),
    }
}

#[test]
fn a_path_is_made_of_directory_and_name() {
    let path = |file: LineFile| file_path(&file);
    assert_eq!(path(line_file("a.c", 1, Some("src"))), Ok("src/a.c".to_string()));
    assert_eq!(path(line_file("a.c", 1, Some("src/"))), Ok("src/a.c".to_string()));
    assert_eq!(path(line_file("a.c", 1, Some(""))), Ok("a.c".to_string()));
    assert_eq!(path(line_file("a.c", 1, None)), Ok("a.c".to_string()));
    assert_eq!(path(line_file("a.c", 0, Some("src"))), Ok("a.c".to_string()));
    assert_eq!(path(line_file("/a.c", 1, Some("src"))), Ok("/a.c".to_string()));
    let broken = LineFile {
        name: Err("no name".to_string()),
        directory_index: 0,
        directory: None,
    };
    assert_eq!(file_path(&broken), Err("no name".to_string()));
    let lost = LineFile {
        name: Ok("a.c".to_string()),
        directory_index: 1,
        directory: Some(Err("no directory".to_string())),
    };
    assert_eq!(file_path(&lost), Err("no directory".to_string()));
}

#[test]
fn a_file_is_meant_by_the_end_of_its_path() {
    assert!(file_is_meant("main.c", "src/main.c", "main.c"));
    assert!(file_is_meant("main.c", "src/main.c", "src/main.c"));
    assert!(file_is_meant("main.c", "src/main.c", "n.c"));
    assert!(!file_is_meant("main.c", "src/main.c", "main.h"));
}

#[test]
fn rows_decide_the_search_for_a_line() {
    let row = |address, end_sequence, line| LineRow {
        address,
        end_sequence,
        line,
    };
    assert_eq!(look_at_row(row(8, false, Some(3)), 8, false), RowStep::Line(3));
    assert_eq!(look_at_row(row(8, false, None), 8, false), RowStep::Skip);
    assert_eq!(look_at_row(row(9, false, Some(3)), 8, true), RowStep::Found);
    assert_eq!(look_at_row(row(9, false, Some(3)), 8, false), RowStep::Past);
    assert_eq!(look_at_row(row(9, true, None), 8, true), RowStep::Found);
    assert_eq!(look_at_row(row(8, true, None), 8, true), RowStep::NewSequence);
    assert_eq!(look_at_row(row(9, true, None), 8, false), RowStep::NewSequence);
}
