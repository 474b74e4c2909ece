use linux_debugger::x86_target::maps::{
    file_address, find_load_bias, is_executable_address_in_program, mapped_object_for_addr,
    parse_process_map_entry, process_address, MappedObject,
};

const MAPS: &str = "\
555555554000-555555555000 r--p 00000000 08:01 77 /home/me/prog
555555555000-555555556000 r-xp 00001000 08:01 77 /home/me/prog
7ffff7dcf000-7ffff7f24000 r-xp 00026000 08:01 123 /usr/lib/libc.so.6
7ffffffde000-7ffffffff000 rw-p 00000000 00:00 0 [stack]
";

#[test]
fn parses_process_map_entry() {
    let entry = parse_process_map_entry(
        "7ffff7dcf000-7ffff7f24000 r-xp 00026000 08:01 123 /usr/lib/libc.so.6",
    )
    .unwrap();

    assert_eq!(entry.start, 0x7ffff7dcf000);
    assert_eq!(entry.end, 0x7ffff7f24000);
    assert_eq!(entry.offset, 0x26000);
    assert_eq!(entry.path.as_deref(), Some("/usr/lib/libc.so.6"));
}

#[test]
fn resolves_mapped_object_offset() {
    let maps = "7ffff7dcf000-7ffff7f24000 r-xp 00026000 08:01 123 /usr/lib/libc.so.6\n";

    assert_eq!(
        mapped_object_for_addr(maps, 0x7ffff7df7249),
        Some(MappedObject {
            name: "libc.so.6".to_string(),
            offset: 0x4e249,
        })
    );
}

#[test]
fn a_map_line_may_lack_a_path() {
    let entry = parse_process_map_entry("1000-2000 rw-p 00000000 00:00 0").unwrap();
    assert_eq!(entry.start, 0x1000);
    assert_eq!(entry.path, None);
}

#[test]
fn malformed_map_lines_are_refused() {
    assert!(parse_process_map_entry("").is_none());
    assert!(parse_process_map_entry("1000 r-xp 0").is_none());
    assert!(parse_process_map_entry("10g0-2000 r-xp 0 08:01 1 /a").is_none());
    assert!(parse_process_map_entry("1000-2000 r-xp zz 08:01 1 /a").is_none());
}

#[test]
fn an_address_outside_all_mappings_has_no_object() {
    assert!(mapped_object_for_addr(MAPS, 0x1000).is_none());
    assert!(mapped_object_for_addr(MAPS, 0x7ffff7f24000).is_none());
    assert_eq!(
        mapped_object_for_addr(MAPS, 0x555555555010),
        Some(MappedObject {
            name: "prog".to_string(),
            offset: 0x1010,
        })
    );
}

#[test]
fn the_load_bias_is_where_the_program_starts() {
    assert_eq!(find_load_bias(MAPS, "./prog"), Some(0x555555554000));
    assert_eq!(find_load_bias(MAPS, "./other"), None);
    assert_eq!(find_load_bias("", "./prog"), None);
    // The first executable mapping whose path ends in the program's name counts.
    let maps = "1000-2000 r-xp 00000000 08:01 9 /bin/a_prog\n3000-4000 r-xp 00000000 08:01 7 /prog\n";
    assert_eq!(find_load_bias(maps, "./prog"), Some(0x1000));
    assert_eq!(find_load_bias(maps, "/prog"), Some(0x1000));
}

#[test]
fn addresses_are_moved_by_the_bias_and_back() {
    let bias = find_load_bias(MAPS, "./prog");
    assert_eq!(file_address(bias, 0x555555555010), 0x1010);
    assert_eq!(process_address(bias, 0x1010), 0x555555555010);
    assert_eq!(file_address(bias, process_address(bias, 0x1234)), 0x1234);
    assert_eq!(file_address(None, 0x401000), 0x401000);
    assert_eq!(process_address(None, 0x401000), 0x401000);
}

#[test]
fn only_executable_mappings_hold_code() {
    assert!(is_executable_address_in_program(MAPS, "./prog", 0x555555555010, true));
    assert!(is_executable_address_in_program(MAPS, "./prog", 0x555555555010, false));
    assert!(!is_executable_address_in_program(MAPS, "./prog", 0x555555554010, false));
    assert!(is_executable_address_in_program(MAPS, "./prog", 0x7ffff7dcf000, false));
    assert!(!is_executable_address_in_program(MAPS, "./prog", 0x7ffff7dcf000, true));
    assert!(!is_executable_address_in_program(MAPS, "./prog", 0x1000, false));
}

#[test]
fn a_library_is_not_the_program() {
    let library = "7f0000001000-7f0000002000 r-xp 00000000 08:01 9 /usr/lib/libdomain\n";
    let addr = 0x7f0000001500;
    assert!(!is_executable_address_in_program(library, "./main", addr, true));
    assert!(is_executable_address_in_program(library, "./main", addr, false));
    let program = "7f0000001000-7f0000002000 r-xp 00000000 08:01 9 /home/me/main\n";
    assert!(is_executable_address_in_program(program, "./main", addr, true));
    assert!(is_executable_address_in_program(program, "main", addr, true));
    assert!(is_executable_address_in_program(program, "/home/me/main", addr, true));
}

#[test]
fn an_object_is_labelled_with_its_file_name() {
    for (path, label) in [
        ("/usr/lib/libc.so.6", "libc.so.6"),
        ("libm", "libm"),
        ("/usr/lib/", "lib"),
        ("/usr/lib/.", "lib"),
        ("/usr//.//", "usr"),
        ("/usr/..", "/usr/.."),
        ("/", "/"),
        (".", "."),
        ("[stack]", "[stack]"),
    ] {
        let line = format!("1000-2000 r-xp 00000000 08:01 1 {path}");
        let object = mapped_object_for_addr(&line, 0x1004).unwrap();
        assert_eq!((object.name.as_str(), object.offset), (label, 4));
    }
}
