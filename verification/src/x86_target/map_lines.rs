//! What the lines of a memory map say of the addresses of a process.
use vstd::prelude::*;

use crate::number::{hex_of, lemma_hex_has_no_hyphen, lemma_hex_reads_back};
use crate::source::{base_name, file_name_of, is_plain};
use crate::text::{ends, lemma_cut_first_at, lemma_cut_last_at, lemma_cut_last_without};
use crate::words::{lines_of, words_of};

use super::maps::{
    before_hyphen, bias_in, entry_of, line_has_code, mapping_at, maps_program_code, object_at,
    MapShape,
};

verus! {

/// A line of a memory map says that a part of a file lies in a range of addresses.
pub open spec fn says(
    line: Seq<char>,
    start: u64,
    end: u64,
    perms: Seq<char>,
    offset: u64,
    path: Seq<char>,
) -> bool {
    let words = words_of(line);
    &&& words.len() == 6
    &&& words[0] == hex_of(start as nat) + seq!['-'] + hex_of(end as nat)
    &&& words[1] == perms
    &&& words[2] == hex_of(offset as nat)
    &&& words[5] == path
}

/// A line is read as what it says, and makes addresses executable exactly where its range and its
/// permissions do; the program's own code is that of a file of the program's name.
pub proof fn lemma_line_says(
    line: Seq<char>,
    start: u64,
    end: u64,
    perms: Seq<char>,
    offset: u64,
    path: Seq<char>,
    program: Seq<char>,
    addr: u64,
)
    requires
        says(line, start, end, perms, offset, path),
    ensures
        entry_of(line) == Some(MapShape { start, end, offset, path: Some(path) }),
        line_has_code(line, program, addr, false) == (perms.contains('x') && start <= addr < end),
        line_has_code(line, program, addr, true) == (perms.contains('x') && start <= addr < end
            && base_name(path) == base_name(program)),
        before_hyphen(words_of(line)[0]) == hex_of(start as nat),
{
    lemma_hex_reads_back(start);
    lemma_hex_reads_back(end);
    lemma_hex_reads_back(offset);
    lemma_hex_has_no_hyphen(start as nat);
    lemma_hex_has_no_hyphen(end as nat);
    lemma_cut_first_at(hex_of(start as nat), hex_of(end as nat), '-');
    crate::text::lemma_cut_first_without(hex_of(end as nat), '-');
}

/// The last part of a path is what stands behind its last slash.
pub proof fn lemma_base_name(dir: Seq<char>, name: Seq<char>)
    requires
        !name.contains('/'),
    ensures
        base_name(dir + seq!['/'] + name) == name,
        base_name(name) == name,
        is_plain(name) ==> file_name_of(dir + seq!['/'] + name) == Some(name),
        is_plain(name) ==> file_name_of(name) == Some(name),
{
    lemma_cut_last_at(dir, name, '/');
    lemma_cut_last_without(name, '/');
}

/// The program lies where the first line that maps code of it says: its load address is the start
/// of the range less the part of the file before it.
pub proof fn lemma_load_address(
    file: Seq<Seq<char>>,
    program: Seq<char>,
    i: int,
    start: u64,
    end: u64,
    offset: u64,
    path: Seq<char>,
)
    requires
        0 <= i < file.len(),
        says(file[i], start, end, "r-xp"@, offset, path),
        ends(path, program) || ends(path, base_name(program)),
        forall|j: int| 0 <= j < i ==> !maps_program_code(words_of(#[trigger] file[j]), program),
    ensures
        start >= offset ==> bias_in(file, program) == Some((start - offset) as u64),
        start < offset ==> bias_in(file, program) == Some(0u64),
    decreases i,
{
    if i == 0 {
        lemma_line_says(file[0], start, end, "r-xp"@, offset, path, program, 0);
        lemma_hex_reads_back(start);
        lemma_hex_reads_back(offset);
    } else {
        let rest = file.drop_first();
        assert(!maps_program_code(words_of(file[0]), program));
        assert forall|j: int| 0 <= j < i - 1 implies !maps_program_code(
            words_of(#[trigger] rest[j]),
            program,
        ) by {
            assert(rest[j] == file[j + 1]);
        }
        lemma_load_address(rest, program, i - 1, start, end, offset, path);
    }
}

/// Where no line maps code of the program, its load address is not known; and a line maps code of
/// it only with those permissions and such a path.
pub proof fn lemma_no_load_address(file: Seq<Seq<char>>, program: Seq<char>)
    requires
        forall|j: int|
            0 <= j < file.len() ==> {
                let words = words_of(#[trigger] file[j]);
                words.len() > 5 ==> words[1] != "r-xp"@ || (!ends(words[5], program) && !ends(
                    words[5],
                    base_name(program),
                ))
            },
    ensures
        bias_in(file, program) is None,
    decreases file.len(),
{
    if file.len() > 0 {
        let rest = file.drop_first();
        let first = file[0];
        assert forall|j: int| 0 <= j < rest.len() implies {
            let words = words_of(#[trigger] rest[j]);
            words.len() > 5 ==> words[1] != "r-xp"@ || (!ends(words[5], program) && !ends(
                words[5],
                base_name(program),
            ))
        } by {
            assert(rest[j] == file[j + 1]);
        }
        lemma_no_load_address(rest, program);
    }
}

/// A line of a memory map covers an address.
pub open spec fn covers(line: Seq<char>, addr: u64) -> bool {
    entry_of(line) matches Some(entry) && entry.start <= addr < entry.end
}

/// The mapping of an address is that of the first line that covers it, and there is none only where
/// no line does.
pub proof fn lemma_mapping(file: Seq<Seq<char>>, addr: u64)
    ensures
        match mapping_at(file, addr) {
            Some(entry) => exists|i: int|
                0 <= i < file.len() && entry_of(#[trigger] file[i]) == Some(entry) && covers(
                    file[i],
                    addr,
                ) && forall|j: int| 0 <= j < i ==> !covers(#[trigger] file[j], addr),
            None => forall|i: int| 0 <= i < file.len() ==> !covers(#[trigger] file[i], addr),
        },
    decreases file.len(),
{
    if file.len() > 0 {
        let rest = file.drop_first();
        lemma_mapping(rest, addr);
        if covers(file[0], addr) {
            assert(entry_of(file[0]) == mapping_at(file, addr));
        } else {
            match mapping_at(rest, addr) {
                Some(entry) => {
                    let i = choose|i: int|
                        0 <= i < rest.len() && entry_of(#[trigger] rest[i]) == Some(entry)
                            && covers(rest[i], addr) && forall|j: int|
                            0 <= j < i ==> !covers(#[trigger] rest[j], addr);
                    assert(file[i + 1] == rest[i]);
                    assert forall|j: int| 0 <= j < i + 1 implies !covers(
                        #[trigger] file[j],
                        addr,
                    ) by {
                        if j > 0 {
                            assert(rest[j - 1] == file[j]);
                        }
                    }
                },
                None => {
                    assert forall|i: int| 0 <= i < file.len() implies !covers(
                        #[trigger] file[i],
                        addr,
                    ) by {
                        if i > 0 {
                            assert(rest[i - 1] == file[i]);
                        }
                    }
                },
            }
        }
    }
}

/// The object at an address is named by its file, and the offset in it counts from the part of the
/// file that the mapping starts with.
pub proof fn lemma_object(
    maps: Seq<char>,
    addr: u64,
    i: int,
    start: u64,
    end: u64,
    perms: Seq<char>,
    offset: u64,
    dir: Seq<char>,
    name: Seq<char>,
)
    requires
        0 <= i < lines_of(maps).len(),
        says(lines_of(maps)[i], start, end, perms, offset, dir + seq!['/'] + name),
        !name.contains('/'),
        is_plain(name),
        start <= addr < end,
        addr - start + offset <= u64::MAX,
        forall|j: int| 0 <= j < i ==> !covers(#[trigger] lines_of(maps)[j], addr),
    ensures
        object_at(maps, addr) == Some((name, (addr - start + offset) as u64)),
{
    let file = lines_of(maps);
    let path = dir + seq!['/'] + name;
    lemma_line_says(file[i], start, end, perms, offset, path, path, addr);
    lemma_base_name(dir, name);
    lemma_mapping(file, addr);
    assert(covers(file[i], addr));
}

} // verus!
