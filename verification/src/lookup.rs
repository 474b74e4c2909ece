//! What lookups in a program's debugging information find, said of its units, entries and rows.
use vstd::prelude::*;

use crate::dwarf::{Attr, Entry, FileShape, RowShape, UnitShape};
use crate::elf_debug_info::{
    addresses_in, addresses_of_line, bounds_of, covered, entry_ranges, function_at, function_in,
    function_ranges_at, is_meant, line_addresses, line_at, line_in, listed_or_bounds, path_of,
    ranges_in, readable_ranges, row_before, row_says, row_silent, source_addresses, unit_covers,
    unit_says, is_row_behind,
};
use crate::text::{begins, ends};

verus! {

// ---------------------------------------------------------------------------
// The code of an entry

/// An address lies in one of the ranges.
pub open spec fn lies_in(ranges: Seq<(u64, u64)>, addr: u64) -> bool {
    exists|k: int|
        0 <= k < ranges.len() && (#[trigger] ranges[k]).0 <= addr && addr < ranges[k].1
}

/// A range of a list can be read: it and those before it could be.
pub open spec fn can_read(list: Seq<Option<(u64, u64)>>, k: int) -> bool {
    0 <= k < list.len() && forall|j: int| 0 <= j <= k ==> #[trigger] list[j] is Some
}

/// A range that can be read is not empty.
pub open spec fn list_has_range(list: Seq<Option<(u64, u64)>>) -> bool {
    exists|k: int| #[trigger] can_read(list, k) && (list[k]->0).0 < (list[k]->0).1
}

/// A range that can be read holds an address.
pub open spec fn list_holds(list: Seq<Option<(u64, u64)>>, pc: u64) -> bool {
    exists|k: int|
        #[trigger] can_read(list, k) && (list[k]->0).0 <= pc && pc < (list[k]->0).1
}

/// An address lies between the first address of an entry and its end, which is an address or a
/// length.
pub open spec fn bounds_hold(unit: UnitShape, entry: u64, pc: u64) -> bool {
    unit.attrs[(entry, 0x11u16)] matches Attr::Addr(low) && low <= pc && match unit.attrs[(
        entry,
        0x12u16,
    )] {
        Attr::Addr(high) => pc < high,
        Attr::Udata(n) => pc < (low + n) % 0x1_0000_0000_0000_0000,
        _ => false,
    }
}

/// An address lies in the range list of an entry, or between its bounds where the list has
/// nothing.
pub open spec fn listed_code(unit: UnitShape, entry: u64, list: u64, pc: u64) -> bool {
    match unit.range_lists[list] {
        Some(ranges) => if list_has_range(ranges) {
            list_holds(ranges, pc)
        } else {
            bounds_hold(unit, entry, pc)
        },
        None => bounds_hold(unit, entry, pc),
    }
}

/// An address lies in the code of an entry.
pub open spec fn in_code_of(unit: UnitShape, entry: u64, pc: u64) -> bool {
    match unit.attrs[(entry, 0x55u16)] {
        Attr::Missing => bounds_hold(unit, entry, pc),
        Attr::RangeList(list) => listed_code(unit, entry, list, pc),
        Attr::RangeIndex(index) => match unit.range_table.offset(index) {
            Some(list) => listed_code(unit, entry, list, pc),
            None => false,
        },
        _ => false,
    }
}

/// The ranges that are kept of a list are those that can be read and are not empty.
proof fn lemma_readable(list: Seq<Option<(u64, u64)>>, pc: u64)
    ensures
        lies_in(readable_ranges(list), pc) == list_holds(list, pc),
        (readable_ranges(list).len() > 0) == list_has_range(list),
    decreases list.len(),
{
    let kept = readable_ranges(list);
    if list.len() > 0 && list[0] is Some {
        let rest = list.drop_first();
        let range = list[0]->0;
        lemma_readable(rest, pc);
        assert(can_read(list, 0));
        assert forall|k: int| #[trigger] can_read(rest, k) implies can_read(list, k + 1)
            && list[k + 1] == rest[k] by {
            assert forall|j: int| 0 <= j <= k + 1 implies #[trigger] list[j] is Some by {
                if j > 0 {
                    assert(rest[j - 1] == list[j]);
                }
            }
        }
        assert forall|k: int| #[trigger] can_read(list, k) && k > 0 implies can_read(rest, k - 1)
            && list[k] == rest[k - 1] by {
            assert forall|j: int| 0 <= j <= k - 1 implies #[trigger] rest[j] is Some by {
                assert(rest[j] == list[j + 1]);
            }
        }
        if list_holds(list, pc) {
            let k = choose|k: int|
                #[trigger] can_read(list, k) && (list[k]->0).0 <= pc && pc < (list[k]->0).1;
            if k > 0 {
                assert(can_read(rest, k - 1));
            }
        }
        if list_has_range(list) {
            let k = choose|k: int|
                #[trigger] can_read(list, k) && (list[k]->0).0 < (list[k]->0).1;
            if k > 0 {
                assert(can_read(rest, k - 1));
            }
        }
        if range.0 < range.1 {
            let more = readable_ranges(rest);
            assert(kept =~= seq![range] + more);
            if lies_in(more, pc) {
                let k = choose|k: int|
                    0 <= k < more.len() && (#[trigger] more[k]).0 <= pc && pc < more[k].1;
                assert(kept[k + 1] == more[k]);
            }
            if lies_in(kept, pc) {
                let k = choose|k: int|
                    0 <= k < kept.len() && (#[trigger] kept[k]).0 <= pc && pc < kept[k].1;
                if k > 0 {
                    assert(more[k - 1] == kept[k]);
                }
            }
            assert(kept[0] == range);
        }
    } else {
        assert(kept.len() == 0);
        assert forall|k: int| !#[trigger] can_read(list, k) by {
            if can_read(list, k) {
                assert(list[0] is Some);
            }
        }
    }
}

/// The ranges of an entry hold exactly the addresses of its code: those between its bounds, or
/// those of its range list where it has one that is not empty.
pub proof fn lemma_entry_code(unit: UnitShape, entry: u64, pc: u64)
    ensures
        lies_in(entry_ranges(unit, entry), pc) == in_code_of(unit, entry, pc),
{
    lemma_bounds(unit, entry, pc);
    match unit.attrs[(entry, 0x55u16)] {
        Attr::RangeList(list) => lemma_listed(unit, entry, list, pc),
        Attr::RangeIndex(index) => {
            if let Some(list) = unit.range_table.offset(index) {
                lemma_listed(unit, entry, list, pc);
            }
        },
        _ => {},
    }
}

proof fn lemma_bounds(unit: UnitShape, entry: u64, pc: u64)
    ensures
        lies_in(
            bounds_of(unit.attrs[(entry, 0x11u16)], unit.attrs[(entry, 0x12u16)]),
            pc,
        ) == bounds_hold(unit, entry, pc),
{
    let bounds = bounds_of(unit.attrs[(entry, 0x11u16)], unit.attrs[(entry, 0x12u16)]);
    if let Attr::Addr(low) = unit.attrs[(entry, 0x11u16)] {
        match unit.attrs[(entry, 0x12u16)] {
            Attr::Addr(high) => {
                assert(bounds[0] == (low, high));
            },
            Attr::Udata(n) => {
                let end = (low + n) % 0x1_0000_0000_0000_0000;
                assert(0 <= end < 0x1_0000_0000_0000_0000);
                assert(bounds[0] == (low, end as u64));
            },
            _ => {},
        }
    }
}

proof fn lemma_listed(unit: UnitShape, entry: u64, list: u64, pc: u64)
    ensures
        lies_in(listed_or_bounds(unit, entry, list), pc) == listed_code(unit, entry, list, pc),
{
    lemma_bounds(unit, entry, pc);
    if let Some(ranges) = unit.range_lists[list] {
        lemma_readable(ranges, pc);
    }
}

// ---------------------------------------------------------------------------
// Functions

/// An entry is that of a function with code at an address.
pub open spec fn is_function_at(
    unit: UnitShape,
    entry: Result<Entry, Seq<char>>,
    pc: u64,
) -> bool {
    entry matches Ok(e) && e.tag == 0x2eu16 && in_code_of(unit, e.offset, pc)
}

/// The text of an entry's name.
pub open spec fn name_of_entry(unit: UnitShape, entry: Result<Entry, Seq<char>>) -> Option<
    Result<Seq<char>, Seq<char>>,
> {
    unit.attr_texts[(entry->Ok_0.offset, 0x03u16)]
}

/// An entry is that of a function with a name and with code at an address.
pub open spec fn is_named_function_at(
    unit: UnitShape,
    entry: Result<Entry, Seq<char>>,
    pc: u64,
) -> bool {
    is_function_at(unit, entry, pc) && name_of_entry(unit, entry) is Some
}

/// The first named function of a unit with code at an address has a name; the entries before it
/// can be read.
pub open spec fn unit_names(unit: UnitShape, pc: u64, name: Seq<char>) -> bool {
    exists|j: int| #[trigger] is_first_name(unit, unit.entries, pc, name, j)
}

/// The entry of a number is the first named function with code at an address.
pub open spec fn is_first_name(
    unit: UnitShape,
    entries: Seq<Result<Entry, Seq<char>>>,
    pc: u64,
    name: Seq<char>,
    j: int,
) -> bool {
    &&& 0 <= j < entries.len()
    &&& is_named_function_at(unit, entries[j], pc)
    &&& name_of_entry(unit, entries[j]) == Some(Ok::<Seq<char>, Seq<char>>(name))
    &&& forall|k: int|
        0 <= k < j ==> (#[trigger] entries[k]) is Ok && !is_named_function_at(unit, entries[k], pc)
}

/// All entries can be read and none is a named function with code at an address.
pub open spec fn has_no_name(
    unit: UnitShape,
    entries: Seq<Result<Entry, Seq<char>>>,
    pc: u64,
) -> bool {
    forall|k: int|
        0 <= k < entries.len() ==> (#[trigger] entries[k]) is Ok && !is_named_function_at(
            unit,
            entries[k],
            pc,
        )
}

proof fn lemma_function_in(unit: UnitShape, entries: Seq<Result<Entry, Seq<char>>>, pc: u64) -> (r:
    int)
    ensures
        function_in(unit, entries, pc) matches Ok(Some(name)) ==> is_first_name(
            unit,
            entries,
            pc,
            name,
            r,
        ),
        function_in(unit, entries, pc) == Ok::<Option<Seq<char>>, Seq<char>>(None) ==> has_no_name(
            unit,
            entries,
            pc,
        ),
    decreases entries.len(),
{
    if entries.len() > 0 && entries[0] is Ok {
        let rest = entries.drop_first();
        lemma_entry_code(unit, entries[0]->Ok_0.offset, pc);
        assert(lies_in(entry_ranges(unit, entries[0]->Ok_0.offset), pc) == covered(
            entry_ranges(unit, entries[0]->Ok_0.offset),
            pc,
        ));
        if is_named_function_at(unit, entries[0], pc) {
            0
        } else {
            let j = lemma_function_in(unit, rest, pc);
            assert(forall|k: int| 0 <= k < rest.len() ==> entries[k + 1] == #[trigger] rest[k]);
            if let Ok(Some(name)) = function_in(unit, entries, pc) {
                assert forall|k: int| 0 <= k < j + 1 implies (#[trigger] entries[k]) is Ok
                    && !is_named_function_at(unit, entries[k], pc) by {
                    if k > 0 {
                        assert(rest[k - 1] == entries[k]);
                    }
                }
            }
            if function_in(unit, entries, pc) == Ok::<Option<Seq<char>>, Seq<char>>(None) {
                assert forall|k: int| 0 <= k < entries.len() implies (#[trigger] entries[k]) is Ok
                    && !is_named_function_at(unit, entries[k], pc) by {
                    if k > 0 {
                        assert(rest[k - 1] == entries[k]);
                    }
                }
            }
            j + 1
        }
    } else {
        0
    }
}

/// The function of an address is the first named one with code there, in the first unit that has
/// one; where no unit has one, none is found.
pub proof fn lemma_function_at(units: Seq<Result<UnitShape, Seq<char>>>, pc: u64)
    ensures
        function_at(units, pc) matches Ok(Some(name)) ==> exists|i: int|
            0 <= i < units.len() && (#[trigger] units[i]) is Ok && unit_names(
                units[i]->Ok_0,
                pc,
                name,
            ) && forall|k: int|
                0 <= k < i ==> (#[trigger] units[k]) is Ok && has_no_name(
                    units[k]->Ok_0,
                    units[k]->Ok_0.entries,
                    pc,
                ),
        function_at(units, pc) == Ok::<Option<Seq<char>>, Seq<char>>(None) ==> forall|k: int|
            0 <= k < units.len() ==> (#[trigger] units[k]) is Ok && has_no_name(
                units[k]->Ok_0,
                units[k]->Ok_0.entries,
                pc,
            ),
    decreases units.len(),
{
    if units.len() > 0 && units[0] is Ok {
        let unit = units[0]->Ok_0;
        let rest = units.drop_first();
        let j = lemma_function_in(unit, unit.entries, pc);
        lemma_function_at(rest, pc);
        assert(forall|k: int| 0 <= k < rest.len() ==> units[k + 1] == #[trigger] rest[k]);
        if let Ok(Some(name)) = function_in(unit, unit.entries, pc) {
            assert(is_first_name(unit, unit.entries, pc, name, j));
            assert(unit_names(units[0]->Ok_0, pc, name));
        } else if let Ok(Some(name)) = function_at(units, pc) {
            let i = choose|i: int|
                0 <= i < rest.len() && (#[trigger] rest[i]) is Ok && unit_names(
                    rest[i]->Ok_0,
                    pc,
                    name,
                ) && forall|k: int|
                    0 <= k < i ==> (#[trigger] rest[k]) is Ok && has_no_name(
                        rest[k]->Ok_0,
                        rest[k]->Ok_0.entries,
                        pc,
                    );
            assert(units[i + 1] == rest[i]);
            assert forall|k: int| 0 <= k < i + 1 implies (#[trigger] units[k]) is Ok && has_no_name(
                units[k]->Ok_0,
                units[k]->Ok_0.entries,
                pc,
            ) by {
                if k > 0 {
                    assert(rest[k - 1] == units[k]);
                }
            }
        } else {
            assert forall|k: int|
                0 <= k < units.len() && function_at(units, pc) == Ok::<Option<Seq<char>>, Seq<char>>(
                    None,
                ) implies (#[trigger] units[k]) is Ok && has_no_name(
                units[k]->Ok_0,
                units[k]->Ok_0.entries,
                pc,
            ) by {
                if k > 0 {
                    assert(rest[k - 1] == units[k]);
                }
            }
        }
    }
}

/// The entry of a number is the first function with code at an address.
pub open spec fn is_first_function(
    unit: UnitShape,
    entries: Seq<Result<Entry, Seq<char>>>,
    pc: u64,
    j: int,
) -> bool {
    &&& 0 <= j < entries.len()
    &&& is_function_at(unit, entries[j], pc)
    &&& forall|k: int|
        0 <= k < j ==> (#[trigger] entries[k]) is Ok && !is_function_at(unit, entries[k], pc)
}

/// All entries can be read and none is a function with code at an address.
pub open spec fn has_no_function(
    unit: UnitShape,
    entries: Seq<Result<Entry, Seq<char>>>,
    pc: u64,
) -> bool {
    forall|k: int|
        0 <= k < entries.len() ==> (#[trigger] entries[k]) is Ok && !is_function_at(
            unit,
            entries[k],
            pc,
        )
}

/// Ranges hold exactly the code of an entry.
pub open spec fn are_code_of(
    ranges: Seq<(u64, u64)>,
    unit: UnitShape,
    entry: Result<Entry, Seq<char>>,
) -> bool {
    forall|addr: u64|
        #[trigger] lies_in(ranges, addr) == in_code_of(unit, entry->Ok_0.offset, addr)
}

proof fn lemma_ranges_in(unit: UnitShape, entries: Seq<Result<Entry, Seq<char>>>, pc: u64) -> (r:
    int)
    ensures
        ranges_in(unit, entries, pc) matches Ok(Some(ranges)) ==> is_first_function(
            unit,
            entries,
            pc,
            r,
        ) && are_code_of(ranges, unit, entries[r]),
        ranges_in(unit, entries, pc) == Ok::<Option<Seq<(u64, u64)>>, Seq<char>>(None)
            ==> has_no_function(unit, entries, pc),
    decreases entries.len(),
{
    if entries.len() > 0 && entries[0] is Ok {
        let rest = entries.drop_first();
        let ranges = entry_ranges(unit, entries[0]->Ok_0.offset);
        lemma_entry_code(unit, entries[0]->Ok_0.offset, pc);
        assert(lies_in(ranges, pc) == covered(ranges, pc));
        if is_function_at(unit, entries[0], pc) {
            assert forall|addr: u64| #[trigger] lies_in(ranges, addr) == in_code_of(
                unit,
                entries[0]->Ok_0.offset,
                addr,
            ) by {
                lemma_entry_code(unit, entries[0]->Ok_0.offset, addr);
            }
            0
        } else {
            let j = lemma_ranges_in(unit, rest, pc);
            assert forall|k: int| 0 < k < entries.len() implies rest[k - 1] == #[trigger] entries[k] by {
            }
            j + 1
        }
    } else {
        0
    }
}

/// The ranges of the function at an address are exactly the code of the first function there, in
/// the first unit that has one; where no unit has one, none are found.
pub proof fn lemma_function_ranges_at(units: Seq<Result<UnitShape, Seq<char>>>, pc: u64)
    ensures
        function_ranges_at(units, pc) matches Ok(Some(ranges)) ==> exists|i: int, j: int|
            0 <= i < units.len() && units[i] is Ok && #[trigger] is_first_function(
                units[i]->Ok_0,
                units[i]->Ok_0.entries,
                pc,
                j,
            ) && are_code_of(ranges, units[i]->Ok_0, units[i]->Ok_0.entries[j]) && forall|k: int|
                0 <= k < i ==> (#[trigger] units[k]) is Ok && has_no_function(
                    units[k]->Ok_0,
                    units[k]->Ok_0.entries,
                    pc,
                ),
        function_ranges_at(units, pc) == Ok::<Option<Seq<(u64, u64)>>, Seq<char>>(None) ==> forall|
            k: int,
        |
            0 <= k < units.len() ==> (#[trigger] units[k]) is Ok && has_no_function(
                units[k]->Ok_0,
                units[k]->Ok_0.entries,
                pc,
            ),
    decreases units.len(),
{
    if units.len() > 0 && units[0] is Ok {
        let unit = units[0]->Ok_0;
        let rest = units.drop_first();
        let j = lemma_ranges_in(unit, unit.entries, pc);
        lemma_function_ranges_at(rest, pc);
        assert forall|k: int| 0 < k < units.len() implies rest[k - 1] == #[trigger] units[k] by {}
        if let Ok(Some(ranges)) = ranges_in(unit, unit.entries, pc) {
            assert(is_first_function(units[0]->Ok_0, units[0]->Ok_0.entries, pc, j));
        } else if let Ok(Some(ranges)) = function_ranges_at(units, pc) {
            let (i, j) = choose|i: int, j: int|
                0 <= i < rest.len() && rest[i] is Ok && #[trigger] is_first_function(
                    rest[i]->Ok_0,
                    rest[i]->Ok_0.entries,
                    pc,
                    j,
                ) && are_code_of(ranges, rest[i]->Ok_0, rest[i]->Ok_0.entries[j]) && forall|k: int|
                    0 <= k < i ==> (#[trigger] rest[k]) is Ok && has_no_function(
                        rest[k]->Ok_0,
                        rest[k]->Ok_0.entries,
                        pc,
                    );
            assert(units[i + 1] == rest[i]);
            assert(is_first_function(units[i + 1]->Ok_0, units[i + 1]->Ok_0.entries, pc, j));
        }
    }
}

// ---------------------------------------------------------------------------
// Addresses of source lines

/// A row is code of a line in a file that a name means: the file has that name, or a path that
/// ends in it.
pub open spec fn row_is_of(
    row: Result<RowShape, Seq<char>>,
    wanted: Seq<char>,
    line: u64,
    addr: u64,
) -> bool {
    row matches Ok(shape) && {
        &&& !shape.row.end_sequence
        &&& shape.row.address == addr
        &&& shape.row.line == Some(line)
        &&& shape.file matches Some(file) && file.name matches Ok(name) && path_of(
            file,
        ) matches Ok(path) && (ends(path, wanted) || name == wanted)
    }
}

/// One of the rows is code of a line in a file that a name means.
pub open spec fn rows_have(
    rows: Seq<Result<RowShape, Seq<char>>>,
    wanted: Seq<char>,
    line: u64,
    addr: u64,
) -> bool {
    exists|j: int| 0 <= j < rows.len() && row_is_of(#[trigger] rows[j], wanted, line, addr)
}

/// A row of a unit is code of a line in a file that a name means.
pub open spec fn unit_has(
    unit: Result<UnitShape, Seq<char>>,
    wanted: Seq<char>,
    line: u64,
    addr: u64,
) -> bool {
    unit matches Ok(unit) && unit.rows matches Some(rows) && rows_have(rows, wanted, line, addr)
}

/// A row of one of the units is code of a line in a file that a name means.
pub open spec fn some_unit_has(
    units: Seq<Result<UnitShape, Seq<char>>>,
    wanted: Seq<char>,
    line: u64,
    addr: u64,
) -> bool {
    exists|i: int| 0 <= i < units.len() && unit_has(#[trigger] units[i], wanted, line, addr)
}

proof fn lemma_rows_have(
    rows: Seq<Result<RowShape, Seq<char>>>,
    wanted: Seq<char>,
    line: u64,
    addr: u64,
)
    requires
        rows.len() > 0,
    ensures
        rows_have(rows, wanted, line, addr) == (row_is_of(rows[0], wanted, line, addr)
            || rows_have(rows.drop_first(), wanted, line, addr)),
{
    let rest = rows.drop_first();
    if rows_have(rest, wanted, line, addr) {
        let j = choose|j: int|
            0 <= j < rest.len() && row_is_of(#[trigger] rest[j], wanted, line, addr);
        assert(rows[j + 1] == rest[j]);
    }
    if rows_have(rows, wanted, line, addr) {
        let j = choose|j: int|
            0 <= j < rows.len() && row_is_of(#[trigger] rows[j], wanted, line, addr);
        if j > 0 {
            assert(rest[j - 1] == rows[j]);
        }
    }
}

proof fn lemma_units_have(
    units: Seq<Result<UnitShape, Seq<char>>>,
    wanted: Seq<char>,
    line: u64,
    addr: u64,
)
    requires
        units.len() > 0,
    ensures
        some_unit_has(units, wanted, line, addr) == (unit_has(units[0], wanted, line, addr)
            || some_unit_has(units.drop_first(), wanted, line, addr)),
{
    let rest = units.drop_first();
    if some_unit_has(rest, wanted, line, addr) {
        let i = choose|i: int|
            0 <= i < rest.len() && unit_has(#[trigger] rest[i], wanted, line, addr);
        assert(units[i + 1] == rest[i]);
    }
    if some_unit_has(units, wanted, line, addr) {
        let i = choose|i: int|
            0 <= i < units.len() && unit_has(#[trigger] units[i], wanted, line, addr);
        if i > 0 {
            assert(rest[i - 1] == units[i]);
        }
    }
}

/// An address is in a list after it was pushed exactly where it was before or is the new one.
proof fn lemma_pushed(list: Seq<u64>, new: u64, addr: u64)
    ensures
        list.push(new).contains(addr) == (list.contains(addr) || addr == new),
{
    let more = list.push(new);
    assert(more[list.len() as int] == new);
    if list.contains(addr) {
        let k = choose|k: int| 0 <= k < list.len() && list[k] == addr;
        assert(more[k] == addr);
    }
    if more.contains(addr) {
        let k = choose|k: int| 0 <= k < more.len() && more[k] == addr;
        if k < list.len() {
            assert(list[k] == addr);
        }
    }
}

/// A path that is the wanted name ends in it.
proof fn lemma_meant(name: Seq<char>, path: Seq<char>, wanted: Seq<char>)
    ensures
        is_meant(name, path, wanted) == (ends(path, wanted) || name == wanted),
{
    assert(path.skip(0) =~= path);
}

proof fn lemma_line_rows(
    rows: Seq<Result<RowShape, Seq<char>>>,
    wanted: Seq<char>,
    line: u64,
    before: Seq<u64>,
    addr: u64,
)
    ensures
        addresses_of_line(rows, wanted, line, before) matches Ok(found) ==> found.contains(addr)
            == (before.contains(addr) || rows_have(rows, wanted, line, addr)),
    decreases rows.len(),
{
    if rows.len() > 0 {
        lemma_rows_have(rows, wanted, line, addr);
        let rest = rows.drop_first();
        if let Ok(shape) = rows[0] {
            lemma_line_rows(rest, wanted, line, before, addr);
            lemma_line_rows(rest, wanted, line, before.push(shape.row.address), addr);
            lemma_pushed(before, shape.row.address, addr);
            if let Some(file) = shape.file {
                if let Ok(path) = path_of(file) {
                    lemma_meant(file.name->Ok_0, path, wanted);
                    assert(file.name is Ok);
                }
            }
        }
    } else {
        assert(!rows_have(rows, wanted, line, addr));
    }
}

proof fn lemma_line_units(
    units: Seq<Result<UnitShape, Seq<char>>>,
    wanted: Seq<char>,
    line: u64,
    before: Seq<u64>,
    addr: u64,
)
    ensures
        source_addresses(units, wanted, line, before) matches Ok(found) ==> found.contains(addr)
            == (before.contains(addr) || some_unit_has(units, wanted, line, addr)),
    decreases units.len(),
{
    if units.len() > 0 {
        lemma_units_have(units, wanted, line, addr);
        let rest = units.drop_first();
        if let Ok(unit) = units[0] {
            match unit.table() {
                None => {
                    lemma_line_units(rest, wanted, line, before, addr);
                },
                Some(rows) => {
                    lemma_line_rows(rows, wanted, line, before, addr);
                    if let Ok(found) = addresses_of_line(rows, wanted, line, before) {
                        if !unit.can_run() {
                            assert(rows[0] is Err);
                        }
                        lemma_line_units(rest, wanted, line, found, addr);
                    }
                },
            }
        }
    } else {
        assert(!some_unit_has(units, wanted, line, addr));
    }
}

/// The addresses found for a source line are exactly those of the rows of that line, in any of
/// the units, whose file is meant by the name.
pub proof fn lemma_source_line_is_found(
    units: Seq<Result<UnitShape, Seq<char>>>,
    wanted: Seq<char>,
    line: u64,
)
    ensures
        source_addresses(units, wanted, line, Seq::empty()) matches Ok(found) ==> forall|addr: u64|
            #[trigger] found.contains(addr) == some_unit_has(units, wanted, line, addr),
{
    if let Ok(found) = source_addresses(units, wanted, line, Seq::empty()) {
        assert forall|addr: u64| #[trigger] found.contains(addr) == some_unit_has(
            units,
            wanted,
            line,
            addr,
        ) by {
            lemma_line_units(units, wanted, line, Seq::empty(), addr);
        }
    }
}

/// A row is the first of a line in a file that a name means.
pub open spec fn is_first_row(
    rows: Seq<Result<RowShape, Seq<char>>>,
    wanted: Seq<char>,
    line: u64,
    addr: u64,
    j: int,
) -> bool {
    &&& 0 <= j < rows.len()
    &&& row_is_of(rows[j], wanted, line, addr)
    &&& forall|k: int, other: u64| 0 <= k < j ==> !#[trigger] row_is_of(rows[k], wanted, line, other)
}

proof fn lemma_first_row(
    rows: Seq<Result<RowShape, Seq<char>>>,
    wanted: Seq<char>,
    line: u64,
) -> (r: int)
    ensures
        addresses_of_line(rows, wanted, line, Seq::empty()) matches Ok(found) ==> found.len() > 0
            ==> is_first_row(rows, wanted, line, found[0], r),
    decreases rows.len(),
{
    if rows.len() > 0 && rows[0] is Ok {
        let rest = rows.drop_first();
        let shape = rows[0]->Ok_0;
        let addr = shape.row.address;
        if let Some(file) = shape.file {
            if let Ok(path) = path_of(file) {
                lemma_meant(file.name->Ok_0, path, wanted);
            }
        }
        if row_is_of(rows[0], wanted, line, addr) {
            assert(Seq::<u64>::empty().push(addr)[0] == addr);
            lemma_rows_keep(rest, wanted, line, Seq::empty().push(addr));
            0
        } else {
            let j = lemma_first_row(rest, wanted, line);
            if let Ok(found) = addresses_of_line(rows, wanted, line, Seq::empty()) {
                if found.len() > 0 {
                    assert(addresses_of_line(rest, wanted, line, Seq::empty()) == Ok::<
                        Seq<u64>,
                        Seq<char>,
                    >(found));
                    assert(rows[j + 1] == rest[j]);
                    assert forall|k: int, other: u64| 0 <= k < j + 1 implies !#[trigger] row_is_of(
                        rows[k],
                        wanted,
                        line,
                        other,
                    ) by {
                        if k > 0 {
                            assert(!row_is_of(rest[k - 1], wanted, line, other));
                        }
                    }
                }
            }
            j + 1
        }
    } else {
        0
    }
}

/// What was found before stays first.
proof fn lemma_rows_keep(
    rows: Seq<Result<RowShape, Seq<char>>>,
    wanted: Seq<char>,
    line: u64,
    before: Seq<u64>,
)
    requires
        before.len() > 0,
    ensures
        addresses_of_line(rows, wanted, line, before) matches Ok(found) ==> found.len() > 0
            && found[0] == before[0],
    decreases rows.len(),
{
    if rows.len() > 0 {
        if let Ok(shape) = rows[0] {
            lemma_rows_keep(rows.drop_first(), wanted, line, before);
            lemma_rows_keep(rows.drop_first(), wanted, line, before.push(shape.row.address));
        }
    }
}

/// What was found before stays first.
proof fn lemma_units_keep(
    units: Seq<Result<UnitShape, Seq<char>>>,
    wanted: Seq<char>,
    line: u64,
    before: Seq<u64>,
)
    requires
        before.len() > 0,
    ensures
        source_addresses(units, wanted, line, before) matches Ok(found) ==> found.len() > 0
            && found[0] == before[0],
    decreases units.len(),
{
    if units.len() > 0 {
        if let Ok(unit) = units[0] {
            match unit.table() {
                None => lemma_units_keep(units.drop_first(), wanted, line, before),
                Some(rows) => {
                    lemma_rows_keep(rows, wanted, line, before);
                    if let Ok(found) = addresses_of_line(rows, wanted, line, before) {
                        lemma_units_keep(units.drop_first(), wanted, line, found);
                    }
                },
            }
        }
    }
}

/// The first address found for a source line, which is where a breakpoint goes, is that of the
/// first such row of the first unit that has one.
pub proof fn lemma_first_address(
    units: Seq<Result<UnitShape, Seq<char>>>,
    wanted: Seq<char>,
    line: u64,
)
    ensures
        source_addresses(units, wanted, line, Seq::empty()) matches Ok(found) ==> found.len() > 0
            ==> exists|i: int, j: int|
            0 <= i < units.len() && units[i] is Ok && units[i]->Ok_0.rows is Some
                && #[trigger] is_first_row(units[i]->Ok_0.rows->0, wanted, line, found[0], j)
                && forall|k: int, other: u64|
                0 <= k < i ==> !#[trigger] unit_has(units[k], wanted, line, other),
    decreases units.len(),
{
    if units.len() > 0 && units[0] is Ok {
        let unit = units[0]->Ok_0;
        let rest = units.drop_first();
        if let Ok(found) = source_addresses(units, wanted, line, Seq::empty()) {
            if unit.table() is Some && !unit.can_run() {
                assert(unit.table()->0[0] is Err);
            }
            let first: Seq<u64> = match unit.rows {
                Some(rows) => addresses_of_line(rows, wanted, line, Seq::empty())->Ok_0,
                None => Seq::empty(),
            };
            if found.len() > 0 {
                if first.len() > 0 {
                    let j = lemma_first_row(unit.rows->0, wanted, line);
                    lemma_units_keep(rest, wanted, line, first);
                    assert(is_first_row(units[0]->Ok_0.rows->0, wanted, line, found[0], j));
                } else {
                    assert(first =~= Seq::<u64>::empty());
                    lemma_first_address(rest, wanted, line);
                    let (i, j) = choose|i: int, j: int|
                        0 <= i < rest.len() && rest[i] is Ok && rest[i]->Ok_0.rows is Some
                            && #[trigger] is_first_row(
                            rest[i]->Ok_0.rows->0,
                            wanted,
                            line,
                            found[0],
                            j,
                        ) && forall|k: int, other: u64|
                            0 <= k < i ==> !#[trigger] unit_has(rest[k], wanted, line, other);
                    assert(units[i + 1] == rest[i]);
                    assert(is_first_row(
                        units[i + 1]->Ok_0.rows->0,
                        wanted,
                        line,
                        found[0],
                        j,
                    ));
                    assert forall|k: int, other: u64|
                        0 <= k < i + 1 implies !#[trigger] unit_has(
                        units[k],
                        wanted,
                        line,
                        other,
                    ) by {
                        if k > 0 {
                            assert(!unit_has(rest[k - 1], wanted, line, other));
                        } else if let Some(rows) = unit.rows {
                            lemma_line_rows(rows, wanted, line, Seq::empty(), other);
                        }
                    }
                }
            }
        }
    }
}

// ---------------------------------------------------------------------------
// Addresses in ranges

/// A row is code of some line, in the ranges and not at the excluded address.
pub open spec fn row_is_in(
    row: Result<RowShape, Seq<char>>,
    ranges: Seq<(u64, u64)>,
    exclude: u64,
    addr: u64,
) -> bool {
    row matches Ok(shape) && !shape.row.end_sequence && shape.row.address == addr && lies_in(
        ranges,
        addr,
    ) && addr != exclude
}

/// A row of a unit is code of some line, in the ranges and not at the excluded address.
pub open spec fn unit_has_in(
    unit: Result<UnitShape, Seq<char>>,
    ranges: Seq<(u64, u64)>,
    exclude: u64,
    addr: u64,
) -> bool {
    unit matches Ok(unit) && unit.rows matches Some(rows) && rows_have_in(
        rows,
        ranges,
        exclude,
        addr,
    )
}

/// One of the rows is code of some line, in the ranges and not at the excluded address.
pub open spec fn rows_have_in(
    rows: Seq<Result<RowShape, Seq<char>>>,
    ranges: Seq<(u64, u64)>,
    exclude: u64,
    addr: u64,
) -> bool {
    exists|j: int| 0 <= j < rows.len() && row_is_in(#[trigger] rows[j], ranges, exclude, addr)
}

/// A row of one of the units is code of some line, in the ranges and not at the excluded address.
pub open spec fn some_unit_has_in(
    units: Seq<Result<UnitShape, Seq<char>>>,
    ranges: Seq<(u64, u64)>,
    exclude: u64,
    addr: u64,
) -> bool {
    exists|i: int| 0 <= i < units.len() && unit_has_in(#[trigger] units[i], ranges, exclude, addr)
}

proof fn lemma_range_rows(
    rows: Seq<Result<RowShape, Seq<char>>>,
    ranges: Seq<(u64, u64)>,
    exclude: u64,
    before: Seq<u64>,
    addr: u64,
)
    ensures
        addresses_in(rows, ranges, exclude, before) matches Ok(found) ==> found.contains(addr) == (
        before.contains(addr) || rows_have_in(rows, ranges, exclude, addr)),
    decreases rows.len(),
{
    if rows.len() > 0 {
        let rest = rows.drop_first();
        if rows_have_in(rest, ranges, exclude, addr) {
            let j = choose|j: int|
                0 <= j < rest.len() && row_is_in(#[trigger] rest[j], ranges, exclude, addr);
            assert(rows[j + 1] == rest[j]);
        }
        if rows_have_in(rows, ranges, exclude, addr) {
            let j = choose|j: int|
                0 <= j < rows.len() && row_is_in(#[trigger] rows[j], ranges, exclude, addr);
            if j > 0 {
                assert(rest[j - 1] == rows[j]);
            }
        }
        if let Ok(shape) = rows[0] {
            lemma_range_rows(rest, ranges, exclude, before, addr);
            lemma_range_rows(rest, ranges, exclude, before.push(shape.row.address), addr);
            lemma_pushed(before, shape.row.address, addr);
            assert(covered(ranges, shape.row.address) == lies_in(ranges, shape.row.address));
            assert(row_is_in(rows[0], ranges, exclude, addr) ==> rows_have_in(
                rows,
                ranges,
                exclude,
                addr,
            ));
        }
    } else {
        assert(!rows_have_in(rows, ranges, exclude, addr));
    }
}

proof fn lemma_range_units(
    units: Seq<Result<UnitShape, Seq<char>>>,
    ranges: Seq<(u64, u64)>,
    exclude: u64,
    before: Seq<u64>,
    addr: u64,
)
    ensures
        line_addresses(units, ranges, exclude, before) matches Ok(found) ==> found.contains(addr)
            == (before.contains(addr) || some_unit_has_in(units, ranges, exclude, addr)),
    decreases units.len(),
{
    if units.len() > 0 {
        let rest = units.drop_first();
        if some_unit_has_in(rest, ranges, exclude, addr) {
            let i = choose|i: int|
                0 <= i < rest.len() && unit_has_in(#[trigger] rest[i], ranges, exclude, addr);
            assert(units[i + 1] == rest[i]);
        }
        if some_unit_has_in(units, ranges, exclude, addr) {
            let i = choose|i: int|
                0 <= i < units.len() && unit_has_in(#[trigger] units[i], ranges, exclude, addr);
            if i > 0 {
                assert(rest[i - 1] == units[i]);
            }
        }
        assert(unit_has_in(units[0], ranges, exclude, addr) ==> some_unit_has_in(
            units,
            ranges,
            exclude,
            addr,
        ));
        if let Ok(unit) = units[0] {
            match unit.table() {
                None => {
                    lemma_range_units(rest, ranges, exclude, before, addr);
                },
                Some(rows) => {
                    lemma_range_rows(rows, ranges, exclude, before, addr);
                    if let Ok(found) = addresses_in(rows, ranges, exclude, before) {
                        if !unit.can_run() {
                            assert(rows[0] is Err);
                        }
                        lemma_range_units(rest, ranges, exclude, found, addr);
                    }
                },
            }
        }
    } else {
        assert(!some_unit_has_in(units, ranges, exclude, addr));
    }
}

/// The line table addresses found in ranges are exactly those of the rows of any unit that lie in
/// the ranges, but for the excluded one.
pub proof fn lemma_lines_in_ranges_are_found(
    units: Seq<Result<UnitShape, Seq<char>>>,
    ranges: Seq<(u64, u64)>,
    exclude: u64,
)
    ensures
        line_addresses(units, ranges, exclude, Seq::empty()) matches Ok(found) ==> forall|addr: u64|
            #[trigger] found.contains(addr) == some_unit_has_in(units, ranges, exclude, addr),
{
    if let Ok(found) = line_addresses(units, ranges, exclude, Seq::empty()) {
        assert forall|addr: u64| #[trigger] found.contains(addr) == some_unit_has_in(
            units,
            ranges,
            exclude,
            addr,
        ) by {
            lemma_range_units(units, ranges, exclude, Seq::empty(), addr);
        }
    }
}

// ---------------------------------------------------------------------------
// When lookups succeed

/// A row can be read, and so can the name and the directory of its file.
pub open spec fn row_can_be_read(row: Result<RowShape, Seq<char>>) -> bool {
    row matches Ok(shape) && (shape.file matches Some(file) ==> file.name is Ok && (
    file.directory matches Some(dir) ==> dir is Ok))
}

/// A unit can be read with its entries, the instructions of its line program and its rows.
pub open spec fn unit_can_be_read(unit: Result<UnitShape, Seq<char>>) -> bool {
    unit matches Ok(unit) && {
        &&& forall|j: int| 0 <= j < unit.entries.len() ==> #[trigger] unit.entries[j] is Ok
        &&& forall|j: int|
            0 <= j < unit.advances.len() ==> #[trigger] unit.advances[j] != Some(
                -0x8000_0000_0000_0000i64,
            )
        &&& unit.rows matches Some(rows) ==> forall|j: int|
            0 <= j < rows.len() ==> row_can_be_read(#[trigger] rows[j])
    }
}

/// All units can be read.
pub open spec fn can_be_read(units: Seq<Result<UnitShape, Seq<char>>>) -> bool {
    forall|i: int| 0 <= i < units.len() ==> unit_can_be_read(#[trigger] units[i])
}

proof fn lemma_rows_succeed(
    rows: Seq<Result<RowShape, Seq<char>>>,
    wanted: Seq<char>,
    line: u64,
    ranges: Seq<(u64, u64)>,
    exclude: u64,
    pc: u64,
    before: Seq<u64>,
    best: Option<(Seq<char>, u64)>,
)
    requires
        forall|j: int| 0 <= j < rows.len() ==> row_can_be_read(#[trigger] rows[j]),
    ensures
        addresses_of_line(rows, wanted, line, before) is Ok,
        addresses_in(rows, ranges, exclude, before) is Ok,
        line_in(rows, pc, best) is Ok,
    decreases rows.len(),
{
    if rows.len() > 0 {
        let rest = rows.drop_first();
        assert(row_can_be_read(rows[0]));
        assert forall|j: int| 0 <= j < rest.len() implies row_can_be_read(#[trigger] rest[j]) by {
            assert(rest[j] == rows[j + 1]);
        }
        let shape = rows[0]->Ok_0;
        let addr = shape.row.address;
        lemma_rows_succeed(rest, wanted, line, ranges, exclude, pc, before, best);
        lemma_rows_succeed(rest, wanted, line, ranges, exclude, pc, before.push(addr), None);
        if let Some(file) = shape.file {
            assert(path_of(file) is Ok);
            if let Some(number) = shape.row.line {
                let now = Some((path_of(file)->Ok_0, number));
                lemma_rows_succeed(rest, wanted, line, ranges, exclude, pc, before, now);
            }
        }
    }
}

proof fn lemma_unit_readable(unit: Result<UnitShape, Seq<char>>)
    requires
        unit_can_be_read(unit),
    ensures
        unit->Ok_0.table() == unit->Ok_0.rows,
{
}

/// Where everything can be read, the lookups of a source line and of the lines in ranges succeed.
pub proof fn lemma_lookups_succeed(
    units: Seq<Result<UnitShape, Seq<char>>>,
    wanted: Seq<char>,
    line: u64,
    ranges: Seq<(u64, u64)>,
    exclude: u64,
    before: Seq<u64>,
)
    requires
        can_be_read(units),
    ensures
        source_addresses(units, wanted, line, before) is Ok,
        line_addresses(units, ranges, exclude, before) is Ok,
    decreases units.len(),
{
    if units.len() > 0 {
        let rest = units.drop_first();
        assert(unit_can_be_read(units[0]));
        lemma_unit_readable(units[0]);
        assert forall|i: int| 0 <= i < rest.len() implies unit_can_be_read(#[trigger] rest[i]) by {
            assert(rest[i] == units[i + 1]);
        }
        match units[0]->Ok_0.rows {
            None => lemma_lookups_succeed(rest, wanted, line, ranges, exclude, before),
            Some(rows) => {
                lemma_rows_succeed(rows, wanted, line, ranges, exclude, 0, before, None);
                let a = addresses_of_line(rows, wanted, line, before)->Ok_0;
                let b = addresses_in(rows, ranges, exclude, before)->Ok_0;
                lemma_lookups_succeed(rest, wanted, line, ranges, exclude, a);
                lemma_lookups_succeed(rest, wanted, line, ranges, exclude, b);
            },
        }
    }
}

// ---------------------------------------------------------------------------
// Source files and lines

/// The path of a source file ends in its name. It is the name alone where that is absolute or the
/// file has no directory of its own; else it is the directory and the name, with one slash put
/// between them where the directory does not end in one.
pub proof fn lemma_path_of(file: FileShape)
    ensures
        path_of(file) matches Ok(path) ==> {
            &&& file.name matches Ok(name)
            &&& ends(path, name)
            &&& name.len() > 0 && name[0] == '/' ==> path == name
            &&& file.directory_index == 0 || file.directory is None ==> path == name
            &&& !(name.len() > 0 && name[0] == '/') && file.directory_index != 0 ==> (
            file.directory matches Some(dir) ==> {
                &&& dir is Ok
                &&& dir->Ok_0.len() == 0 ==> path == name
                &&& dir->Ok_0.len() > 0 && dir->Ok_0.last() == '/' ==> path == dir->Ok_0 + name
                &&& dir->Ok_0.len() > 0 && dir->Ok_0.last() != '/' ==> path == dir->Ok_0.push('/')
                    + name
            })
        },
        path_of(file) is Err ==> file.name is Err || (file.directory matches Some(dir)
            && dir is Err),
{
    reveal_strlit("/");
    assert("/"@ =~= seq!['/']);
    if let Ok(name) = file.name {
        if name.len() > 0 && name[0] == '/' {
            assert(name.take(1) =~= "/"@);
        }
        if begins(name, "/"@) {
            assert(name.take(1)[0] == '/');
        }
        assert(begins(name, "/"@) == (name.len() > 0 && name[0] == '/'));
        if let Ok(path) = path_of(file) {
            if let Some(Ok(dir)) = file.directory {
                if dir.len() > 0 && dir.last() == '/' {
                    assert(dir.skip(dir.len() - 1) =~= "/"@);
                }
                if ends(dir, "/"@) {
                    assert(dir.skip(dir.len() - 1)[0] == '/');
                }
                assert(ends(dir, "/"@) == (dir.len() > 0 && dir.last() == '/'));
                assert(dir + "/"@ =~= dir.push('/'));
            }
            assert(path.skip(path.len() - name.len()) =~= name);
        }
    }
}

/// A row is on the way to an address: it can be read, and it is not past the address.
pub open spec fn row_leads_to(row: Result<RowShape, Seq<char>>, pc: u64) -> bool {
    row_can_be_read(row) && row->Ok_0.row.address <= pc
}

proof fn lemma_line_from_row(
    rows: Seq<Result<RowShape, Seq<char>>>,
    pc: u64,
    found: (Seq<char>, u64),
    at: int,
    next: int,
    from: int,
    best: Option<(Seq<char>, u64)>,
)
    requires
        is_row_behind(rows, pc, found, at, next),
        forall|k: int| 0 <= k < next ==> row_leads_to(#[trigger] rows[k], pc),
        0 <= from <= next,
        from > at ==> best == Some(found),
    ensures
        line_in(rows.skip(from), pc, best) == Ok::<Option<(Seq<char>, u64)>, Seq<char>>(
            Some(found),
        ),
    decreases next - from,
{
    let rest = rows.skip(from);
    assert(rest[0] == rows[from]);
    assert(rest.drop_first() =~= rows.skip(from + 1));
    if from < next {
        assert(row_leads_to(rows[from], pc));
        let shape = rows[from]->Ok_0;
        if shape.row.end_sequence {
            if from > at {
                assert(row_before(rows[from], pc));
            }
            lemma_line_from_row(rows, pc, found, at, next, from + 1, None);
        } else {
            if from > at {
                assert(row_silent(rows[from]));
            }
            match (shape.row.line, shape.file) {
                (Some(line), Some(file)) => {
                    assert(path_of(file) is Ok);
                    let now = Some((path_of(file)->Ok_0, line));
                    if from == at {
                        assert(row_says(rows[at], found.0, found.1));
                    }
                    lemma_line_from_row(rows, pc, found, at, next, from + 1, now);
                },
                _ => {
                    if from == at {
                        assert(row_says(rows[at], found.0, found.1));
                    }
                    lemma_line_from_row(rows, pc, found, at, next, from + 1, best);
                },
            }
        }
    }
}

/// Where rows lead up to an address, the last of them with a line gives the line of the address,
/// provided that the next row of its sequence is past the address.
pub proof fn lemma_line_is_found(
    rows: Seq<Result<RowShape, Seq<char>>>,
    pc: u64,
    found: (Seq<char>, u64),
    at: int,
    next: int,
)
    requires
        is_row_behind(rows, pc, found, at, next),
        forall|k: int| 0 <= k < next ==> row_leads_to(#[trigger] rows[k], pc),
    ensures
        line_in(rows, pc, None) == Ok::<Option<(Seq<char>, u64)>, Seq<char>>(Some(found)),
{
    assert(rows.skip(0) =~= rows);
    lemma_line_from_row(rows, pc, found, at, next, 0, None);
}

/// The first entry for a whole compilation decides whether a unit is about an address.
pub proof fn lemma_unit_covers(
    unit: UnitShape,
    entries: Seq<Result<Entry, Seq<char>>>,
    pc: u64,
    j: int,
)
    requires
        forall|k: int| 0 <= k < entries.len() ==> #[trigger] entries[k] is Ok,
        0 <= j <= entries.len(),
        forall|k: int| 0 <= k < j ==> (#[trigger] entries[k])->Ok_0.tag != 0x11u16,
        j < entries.len() ==> entries[j]->Ok_0.tag == 0x11u16,
    ensures
        unit_covers(unit, entries, pc) == Ok::<bool, Seq<char>>(
            j < entries.len() && in_code_of(unit, entries[j]->Ok_0.offset, pc),
        ),
    decreases entries.len(),
{
    if entries.len() > 0 {
        let rest = entries.drop_first();
        assert(entries[0] is Ok);
        if j > 0 {
            assert forall|k: int| 0 <= k < rest.len() implies #[trigger] rest[k] is Ok by {
                assert(rest[k] == entries[k + 1]);
            }
            assert forall|k: int| 0 <= k < j - 1 implies (#[trigger] rest[k])->Ok_0.tag != 0x11u16 by {
                assert(rest[k] == entries[k + 1]);
            }
            lemma_unit_covers(unit, rest, pc, j - 1);
        } else {
            let ranges = entry_ranges(unit, entries[0]->Ok_0.offset);
            lemma_entry_code(unit, entries[0]->Ok_0.offset, pc);
            assert(covered(ranges, pc) == lies_in(ranges, pc));
        }
    }
}

/// A unit that can be read says nothing of an address.
pub open spec fn unit_is_silent(unit: Result<UnitShape, Seq<char>>, pc: u64) -> bool {
    forall|found: (Seq<char>, u64)| !#[trigger] unit_says(unit, pc, found)
}

/// The source line of an address comes from the first unit that says one; where none is found, no
/// unit says one.
pub proof fn lemma_first_unit_says(units: Seq<Result<UnitShape, Seq<char>>>, pc: u64)
    ensures
        line_at(units, pc) matches Ok(Some(found)) ==> exists|i: int|
            0 <= i < units.len() && unit_says(#[trigger] units[i], pc, found) && forall|k: int|
                0 <= k < i ==> unit_is_silent(#[trigger] units[k], pc),
        line_at(units, pc) == Ok::<Option<(Seq<char>, u64)>, Seq<char>>(None) ==> forall|k: int|
            0 <= k < units.len() ==> unit_is_silent(#[trigger] units[k], pc),
    decreases units.len(),
{
    if units.len() > 0 && units[0] is Ok {
        let rest = units.drop_first();
        lemma_first_unit_says(rest, pc);
        assert forall|k: int| 0 < k < units.len() implies rest[k - 1] == #[trigger] units[k] by {}
        if let Ok(Some(found)) = line_at(units, pc) {
            if !unit_says(units[0], pc, found) {
                let i = choose|i: int|
                    0 <= i < rest.len() && unit_says(#[trigger] rest[i], pc, found) && forall|
                        k: int,
                    |
                        0 <= k < i ==> unit_is_silent(#[trigger] rest[k], pc);
                assert(units[i + 1] == rest[i]);
                assert(unit_is_silent(units[0], pc));
                assert forall|k: int| 0 <= k < i + 1 implies unit_is_silent(
                    #[trigger] units[k],
                    pc,
                ) by {
                    if k > 0 {
                        assert(unit_is_silent(rest[k - 1], pc));
                    }
                }
            }
        } else if line_at(units, pc) == Ok::<Option<(Seq<char>, u64)>, Seq<char>>(None) {
            assert(unit_is_silent(units[0], pc));
            assert forall|k: int| 0 <= k < units.len() implies unit_is_silent(
                #[trigger] units[k],
                pc,
            ) by {
                if k > 0 {
                    assert(unit_is_silent(rest[k - 1], pc));
                }
            }
        }
    }
}

proof fn lemma_entries_succeed(unit: UnitShape, entries: Seq<Result<Entry, Seq<char>>>, pc: u64)
    requires
        forall|j: int| 0 <= j < entries.len() ==> #[trigger] entries[j] is Ok,
    ensures
        unit_covers(unit, entries, pc) is Ok,
        ranges_in(unit, entries, pc) is Ok,
    decreases entries.len(),
{
    if entries.len() > 0 {
        let rest = entries.drop_first();
        assert(entries[0] is Ok);
        assert forall|j: int| 0 <= j < rest.len() implies #[trigger] rest[j] is Ok by {
            assert(rest[j] == entries[j + 1]);
        }
        lemma_entries_succeed(unit, rest, pc);
    }
}

/// Where everything can be read, the lookups of an address succeed.
pub proof fn lemma_address_lookups_succeed(units: Seq<Result<UnitShape, Seq<char>>>, pc: u64)
    requires
        can_be_read(units),
    ensures
        line_at(units, pc) is Ok,
        function_ranges_at(units, pc) is Ok,
    decreases units.len(),
{
    if units.len() > 0 {
        let rest = units.drop_first();
        assert(unit_can_be_read(units[0]));
        lemma_unit_readable(units[0]);
        assert forall|i: int| 0 <= i < rest.len() implies unit_can_be_read(#[trigger] rest[i]) by {
            assert(rest[i] == units[i + 1]);
        }
        lemma_address_lookups_succeed(rest, pc);
        let unit = units[0]->Ok_0;
        lemma_entries_succeed(unit, unit.entries, pc);
        if let Some(rows) = unit.rows {
            lemma_rows_succeed(rows, Seq::empty(), 0, Seq::empty(), 0, pc, Seq::empty(), None);
        }
    }
}

} // verus!
