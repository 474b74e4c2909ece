//! The memory map of a process, as Linux prints it.
//!
//! A line has a range of addresses, permissions, an offset in the mapped file, a device, an
//! inode and, for a file, its path: `555555554000-555555556000 r-xp 00000000 08:01 12345 /bin/x`.
use vstd::prelude::*;

use crate::number::{parse_hex, read_number};
use crate::source::{base_name, file_name, file_name_of, last_part};
use crate::text::{cut_first, ends, ends_with, has_char, opt_text, same, split_once, texts};
use crate::words::{lines, lines_of, split_whitespace, words_of};

verus! {

// ---------------------------------------------------------------------------
// One line

/// One line of a memory map.
#[derive(Debug, PartialEq, Eq)]
pub struct ProcessMapEntry {
    pub start: u64,
    pub end: u64,
    pub offset: u64,
    pub path: Option<String>,
}

/// One line of a memory map, as mathematical values.
pub struct MapShape {
    pub start: u64,
    pub end: u64,
    pub offset: u64,
    pub path: Option<Seq<char>>,
}

impl View for ProcessMapEntry {
    type V = MapShape;

    open spec fn view(&self) -> MapShape {
        MapShape {
            start: self.start,
            end: self.end,
            offset: self.offset,
            path: opt_text(self.path),
        }
    }
}

/// A hexadecimal number of 64 bits, where a text is one.
pub open spec fn hex_number(s: Seq<char>) -> Option<u64> {
    match read_number(s, 16, u64::MAX as nat) {
        Ok(n) => Some(n as u64),
        Err(_) => None,
    }
}

/// A hexadecimal number of 64 bits, where a text is one.
fn number_of(s: &str) -> (r: Option<u64>)
    ensures
        r == hex_number(s@),
{
    match parse_hex(s) {
        Ok(n) => Some(n),
        Err(_) => None,
    }
}

/// What follows the inode in a line: the path.
pub open spec fn path_word(words: Seq<Seq<char>>) -> Option<Seq<char>> {
    if words.len() > 5 {
        Some(words[5])
    } else {
        None
    }
}

/// What a line of a memory map says, where it is one.
pub open spec fn entry_of(line: Seq<char>) -> Option<MapShape> {
    let words = words_of(line);
    if words.len() < 5 {
        None
    } else {
        match cut_first(words[0], '-') {
            None => None,
            Some((start, end)) => match (hex_number(start), hex_number(end), hex_number(words[2])) {
                (Some(start), Some(end), Some(offset)) => Some(
                    MapShape { start, end, offset, path: path_word(words) },
                ),
                _ => None,
            },
        }
    }
}

/// The path of a line given by its words.
fn path_of_words(words: &Vec<String>) -> (r: Option<String>)
    ensures
        opt_text(r) == path_word(texts(words@)),
{
    if words.len() > 5 {
        Some(words[5].clone())
    } else {
        None
    }
}

/// What a line of a memory map says, where it is one.
pub fn parse_process_map_entry(line: &str) -> (r: Option<ProcessMapEntry>)
    ensures
        match r {
            Some(entry) => entry_of(line@) == Some(entry@),
            None => entry_of(line@) is None,
        },
{
    let words = split_whitespace(line);
    if words.len() < 5 {
        return None;
    }
    let (start, end) = match split_once(words[0].as_str(), '-') {
        Some(range) => range,
        None => {
            return None;
        },
    };
    match (
        number_of(start.as_str()),
        number_of(end.as_str()),
        number_of(words[2].as_str()),
    ) {
        (Some(start), Some(end), Some(offset)) => Some(
            ProcessMapEntry { start, end, offset, path: path_of_words(&words) },
        ),
        _ => None,
    }
}

// ---------------------------------------------------------------------------
// The object at an address

/// A mapped object and an offset in it.
#[derive(Debug, PartialEq, Eq)]
pub struct MappedObject {
    pub name: String,
    pub offset: u64,
}

/// The first mapping that holds an address.
pub open spec fn mapping_at(file: Seq<Seq<char>>, addr: u64) -> Option<MapShape>
    decreases file.len(),
{
    if file.len() == 0 {
        None
    } else {
        match entry_of(file[0]) {
            Some(entry) if entry.start <= addr < entry.end => Some(entry),
            _ => mapping_at(file.drop_first(), addr),
        }
    }
}

/// The label of a path: its file name, or the path where it has none.
pub open spec fn path_label(path: Seq<char>) -> Seq<char> {
    match file_name_of(path) {
        Some(name) => name,
        None => path,
    }
}

/// The name of a mapped object and the offset of an address in its file.
pub open spec fn object_of(entry: MapShape, addr: u64) -> (Seq<char>, u64) {
    (
        match entry.path {
            Some(path) => path_label(path),
            None => "anonymous mapping"@,
        },
        ((addr - entry.start + entry.offset) % 0x1_0000_0000_0000_0000) as u64,
    )
}

/// The name of the object mapped at an address and the offset of the address in its file.
pub open spec fn object_at(maps: Seq<char>, addr: u64) -> Option<(Seq<char>, u64)> {
    match mapping_at(lines_of(maps), addr) {
        Some(entry) => Some(object_of(entry, addr)),
        None => None,
    }
}

/// The label of a path: its file name, or the path where it has none.
fn map_path_label(path: &str) -> (r: String)
    ensures
        r@ == path_label(path@),
{
    match file_name(path) {
        Some(name) => name,
        None => path.to_owned(),
    }
}

/// The object mapped at an address and the offset of the address in its file.
pub fn mapped_object_for_addr(maps: &str, runtime_addr: u64) -> (r: Option<MappedObject>)
    ensures
        match r {
            Some(object) => object_at(maps@, runtime_addr) == Some((object.name@, object.offset)),
            None => object_at(maps@, runtime_addr) is None,
        },
{
    let file = lines(maps);
    let ghost all = lines_of(maps@);
    assert(all.skip(0) =~= all);
    for i in 0..file.len()
        invariant
            all == lines_of(maps@),
            texts(file@) == all,
            mapping_at(all, runtime_addr) == mapping_at(all.skip(i as int), runtime_addr),
    {
        assert(all.skip(i as int)[0] == all[i as int]);
        assert(all[i as int] == texts(file@)[i as int]);
        assert(all.skip(i as int).drop_first() =~= all.skip(i + 1));
        if let Some(entry) = parse_process_map_entry(file[i].as_str()) {
            if entry.start <= runtime_addr && runtime_addr < entry.end {
                let name = match &entry.path {
                    Some(path) => map_path_label(path.as_str()),
                    None => "anonymous mapping".to_owned(),
                };
                let offset: u64 = (runtime_addr - entry.start).wrapping_add(entry.offset);
                return Some(MappedObject { name, offset });
            }
        }
    }
    assert(all.skip(file@.len() as int).len() == 0);
    None
}

// ---------------------------------------------------------------------------
// The program's own code

/// A path is that of a program: its last part is that of the program's path.
pub open spec fn is_program(path: Seq<char>, program: Seq<char>) -> bool {
    base_name(path) == base_name(program)
}

/// Whether a path is that of a program.
fn is_path_of(path: &str, program: &str) -> (r: bool)
    ensures
        r == is_program(path@, program@),
{
    let name = last_part(path);
    let wanted = last_part(program);
    same(name.as_str(), wanted.as_str())
}

/// What stands before the first hyphen.
pub open spec fn before_hyphen(range: Seq<char>) -> Seq<char> {
    match cut_first(range, '-') {
        Some((start, _)) => start,
        None => range,
    }
}

/// What stands before the first hyphen.
fn text_before_hyphen(range: &str) -> (r: String)
    ensures
        r@ == before_hyphen(range@),
{
    match split_once(range, '-') {
        Some((start, _)) => start,
        None => range.to_owned(),
    }
}

/// A path ends in the path of a program or in the last part of it.
pub open spec fn ends_in_program(path: Seq<char>, program: Seq<char>) -> bool {
    ends(path, program) || ends(path, base_name(program))
}

/// A line, given by its words, maps code of a file that a program's name stands for.
pub open spec fn maps_program_code(words: Seq<Seq<char>>, program: Seq<char>) -> bool {
    &&& words.len() > 5
    &&& words[1] == "r-xp"@
    &&& ends_in_program(words[5], program)
}

/// Where a program was loaded, by the first line that maps code of it. Nothing is known where
/// there is no such line, or where its numbers are none.
pub open spec fn bias_in(file: Seq<Seq<char>>, program: Seq<char>) -> Option<u64>
    decreases file.len(),
{
    if file.len() == 0 {
        None
    } else {
        let words = words_of(file[0]);
        if maps_program_code(words, program) {
            match (hex_number(before_hyphen(words[0])), hex_number(words[2])) {
                (Some(start), Some(offset)) => Some(
                    if start >= offset {
                        (start - offset) as u64
                    } else {
                        0
                    },
                ),
                _ => None,
            }
        } else {
            bias_in(file.drop_first(), program)
        }
    }
}

/// Where a program was loaded, by a memory map.
pub fn find_load_bias(maps: &str, program: &str) -> (r: Option<u64>)
    ensures
        r == bias_in(lines_of(maps@), program@),
{
    let file = lines(maps);
    let name = last_part(program);
    let ghost all = lines_of(maps@);
    assert(all.skip(0) =~= all);
    for i in 0..file.len()
        invariant
            all == lines_of(maps@),
            texts(file@) == all,
            name@ == base_name(program@),
            bias_in(all, program@) == bias_in(all.skip(i as int), program@),
    {
        assert(all.skip(i as int)[0] == all[i as int]);
        assert(all[i as int] == texts(file@)[i as int]);
        assert(all.skip(i as int).drop_first() =~= all.skip(i + 1));
        let words = split_whitespace(file[i].as_str());
        if words.len() > 5 && same(words[1].as_str(), "r-xp") {
            let path = words[5].as_str();
            if ends_with(path, program) || ends_with(path, name.as_str()) {
                let first = text_before_hyphen(words[0].as_str());
                return match (number_of(first.as_str()), number_of(words[2].as_str())) {
                    (Some(start), Some(offset)) => Some(start.saturating_sub(offset)),
                    _ => None,
                };
            }
        }
    }
    assert(all.skip(file@.len() as int).len() == 0);
    None
}

/// The two numbers that a range of addresses is written with.
pub open spec fn range_of(range: Seq<char>) -> Option<(u64, u64)> {
    match cut_first(range, '-') {
        None => None,
        Some((start, rest)) => match (hex_number(start), hex_number(before_hyphen(rest))) {
            (Some(start), Some(end)) => Some((start, end)),
            _ => None,
        },
    }
}

/// The two numbers that a range of addresses is written with.
fn parse_range(range: &str) -> (r: Option<(u64, u64)>)
    ensures
        r == range_of(range@),
{
    match split_once(range, '-') {
        None => None,
        Some((start, rest)) => {
            let end = text_before_hyphen(rest.as_str());
            match (number_of(start.as_str()), number_of(end.as_str())) {
                (Some(start), Some(end)) => Some((start, end)),
                _ => None,
            }
        },
    }
}

/// A line maps executable memory at an address, and of a program where only that counts.
pub open spec fn line_has_code(line: Seq<char>, program: Seq<char>, addr: u64, ours: bool) -> bool {
    let words = words_of(line);
    &&& words.len() >= 2
    &&& words[1].contains('x')
    &&& match range_of(words[0]) {
        Some((start, end)) => start <= addr < end,
        None => false,
    }
    &&& ours ==> words.len() > 5 && is_program(words[5], program)
}

/// A memory map has executable memory at an address, and of a program where only that counts.
pub open spec fn has_code(maps: Seq<char>, program: Seq<char>, addr: u64, ours: bool) -> bool {
    exists|i: int|
        0 <= i < lines_of(maps).len() && #[trigger] line_has_code(
            lines_of(maps)[i],
            program,
            addr,
            ours,
        )
}

/// Whether a line maps executable memory at an address.
fn line_is_code(line: &str, program: &str, addr: u64, ours: bool) -> (r: bool)
    ensures
        r == line_has_code(line@, program@, addr, ours),
{
    let words = split_whitespace(line);
    if words.len() < 2 || !has_char(words[1].as_str(), 'x') {
        return false;
    }
    match parse_range(words[0].as_str()) {
        None => false,
        Some((start, end)) => {
            if addr < start || addr >= end {
                false
            } else if !ours {
                true
            } else {
                words.len() > 5 && is_path_of(words[5].as_str(), program)
            }
        },
    }
}

/// Whether a memory map has executable memory at an address, and of a program where only that
/// counts.
pub fn is_executable_address_in_program(
    maps: &str,
    program: &str,
    addr: u64,
    our_program_only: bool,
) -> (r: bool)
    ensures
        r == has_code(maps@, program@, addr, our_program_only),
{
    let file = lines(maps);
    for i in 0..file.len()
        invariant
            texts(file@) == lines_of(maps@),
            forall|j: int|
                0 <= j < i ==> !(#[trigger] line_has_code(
                    lines_of(maps@)[j],
                    program@,
                    addr,
                    our_program_only,
                )),
    {
        assert(lines_of(maps@)[i as int] == texts(file@)[i as int]);
        if line_is_code(file[i].as_str(), program, addr, our_program_only) {
            assert(line_has_code(
                lines_of(maps@)[i as int],
                program@,
                addr,
                our_program_only,
            ));
            return true;
        }
    }
    assert(texts(file@).len() == lines_of(maps@).len());
    false
}

/// Code of the program is code.
pub proof fn lemma_own_code_is_code(maps: Seq<char>, program: Seq<char>, addr: u64)
    requires
        has_code(maps, program, addr, true),
    ensures
        has_code(maps, program, addr, false),
{
    let i = choose|i: int|
        0 <= i < lines_of(maps).len() && #[trigger] line_has_code(
            lines_of(maps)[i],
            program,
            addr,
            true,
        );
    assert(line_has_code(lines_of(maps)[i], program, addr, false));
}

/// The code of a file with another name than the program's, such as a library, is not the
/// program's own.
pub proof fn lemma_libraries_are_not_the_program(line: Seq<char>, program: Seq<char>, addr: u64)
    requires
        words_of(line).len() > 5 ==> base_name(words_of(line)[5]) != base_name(program),
    ensures
        !line_has_code(line, program, addr, true),
{
}

// ---------------------------------------------------------------------------
// Addresses of the file and of the process

/// The address in the program file of an address of the process.
pub open spec fn file_addr(bias: Option<u64>, runtime: u64) -> u64 {
    match bias {
        Some(bias) => if runtime >= bias {
            (runtime - bias) as u64
        } else {
            0
        },
        None => runtime,
    }
}

/// The address of the process for an address in the program file.
pub open spec fn process_addr(bias: Option<u64>, addr: u64) -> u64 {
    match bias {
        Some(bias) => if bias + addr <= u64::MAX {
            (bias + addr) as u64
        } else {
            u64::MAX
        },
        None => addr,
    }
}

/// The address in the program file of an address of the process.
pub fn file_address(bias: Option<u64>, runtime: u64) -> (r: u64)
    ensures
        r == file_addr(bias, runtime),
{
    match bias {
        Some(bias) => runtime.saturating_sub(bias),
        None => runtime,
    }
}

/// The address of the process for an address in the program file.
pub fn process_address(bias: Option<u64>, addr: u64) -> (r: u64)
    ensures
        r == process_addr(bias, addr),
{
    match bias {
        Some(bias) => bias.saturating_add(addr),
        None => addr,
    }
}

/// An address in the program file is found again from the address of the process, where that
/// does not leave the range of addresses; and the other way round from the load address on.
pub proof fn lemma_addresses_match(bias: Option<u64>, addr: u64)
    ensures
        bias is None || bias->0 + addr <= u64::MAX ==> file_addr(bias, process_addr(bias, addr))
            == addr,
        bias is None || bias->0 <= addr ==> process_addr(bias, file_addr(bias, addr)) == addr,
{
}

} // verus!
