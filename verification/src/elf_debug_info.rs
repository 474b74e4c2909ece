//! Questions that a debugger asks of a program's debugging information.
use vstd::prelude::*;

use crate::dwarf::{
    entry_attr, entry_results, entry_text, image_of, next_row, open_unit, range_list, range_table,
    row_file, rows_left, text_or_fault, unit_entries, unit_in, unit_rows, units_of, Attr,
    DwarfImage, Entry, FileShape, ImageShape, LineFile, LineRow, OpenUnit, RowShape, UnitShape,
    AT_HIGH_PC, AT_LOW_PC, AT_NAME, AT_RANGES, TAG_COMPILE_UNIT, TAG_SUBPROGRAM,
};
use crate::list::push_new;
use crate::target::TargetError;
use crate::text::{begins, ends, ends_with, same, starts_with};

verus! {

/// The units of a program.
pub open spec fn units_in_image(image: ImageShape) -> Seq<Result<UnitShape, Seq<char>>> {
    units_of(image.little_endian, image.sections)
}

/// An answer, or an error with one message.
pub open spec fn one_message<A>(r: Result<A, Seq<char>>) -> Result<A, Seq<Seq<char>>> {
    match r {
        Ok(a) => Ok(a),
        Err(e) => Err(seq![e]),
    }
}

// ---------------------------------------------------------------------------
// Ranges of addresses

/// An address lies in one of the ranges.
pub open spec fn covered(ranges: Seq<(u64, u64)>, pc: u64) -> bool {
    exists|i: int| 0 <= i < ranges.len() && #[trigger] ranges[i].0 <= pc < ranges[i].1
}

/// Whether an address lies in one of the ranges.
pub fn ranges_cover(ranges: &[(u64, u64)], pc: u64) -> (r: bool)
    ensures
        r == covered(ranges@, pc),
{
    for i in 0..ranges.len()
        invariant
            forall|j: int|
                0 <= j < i ==> !(#[trigger] ranges@[j].0 <= pc < ranges@[j].1),
    {
        if ranges[i].0 <= pc && pc < ranges[i].1 {
            assert(ranges@[i as int].0 <= pc < ranges@[i as int].1);
            return true;
        }
    }
    false
}

/// The ranges of a list that are not empty, up to the first that could not be read.
pub open spec fn readable_ranges(list: Seq<Option<(u64, u64)>>) -> Seq<(u64, u64)>
    decreases list.len(),
{
    if list.len() == 0 {
        Seq::empty()
    } else {
        match list[0] {
            None => Seq::empty(),
            Some(range) => if range.0 < range.1 {
                seq![range] + readable_ranges(list.drop_first())
            } else {
                readable_ranges(list.drop_first())
            },
        }
    }
}

/// The ranges of a list that are not empty, up to the first that could not be read.
pub fn collect_ranges(list: &[Option<(u64, u64)>]) -> (r: Vec<(u64, u64)>)
    ensures
        r@ == readable_ranges(list@),
{
    let mut out: Vec<(u64, u64)> = Vec::new();
    assert(list@.skip(0) =~= list@);
    assert(out@ + readable_ranges(list@) =~= readable_ranges(list@));
    for i in 0..list.len()
        invariant
            out@ + readable_ranges(list@.skip(i as int)) == readable_ranges(list@),
    {
        let ghost rest = list@.skip(i as int);
        assert(rest[0] == list@[i as int]);
        assert(rest.drop_first() =~= list@.skip(i + 1));
        match list[i] {
            None => {
                assert(out@ + Seq::<(u64, u64)>::empty() =~= out@);
                return out;
            },
            Some(range) => {
                if range.0 < range.1 {
                    let ghost before = out@;
                    out.push(range);
                    assert(out@ + readable_ranges(list@.skip(i + 1)) =~= before + (seq![range]
                        + readable_ranges(list@.skip(i + 1))));
                }
            },
        }
    }
    assert(list@.skip(list@.len() as int).len() == 0);
    assert(out@ + Seq::<(u64, u64)>::empty() =~= out@);
    out
}

/// The range from a first address to the end that goes with it, given as an address or as a
/// length.
pub open spec fn bounds_of(low: Attr, high: Attr) -> Seq<(u64, u64)> {
    match low {
        Attr::Addr(a) => match high {
            Attr::Addr(h) => seq![(a, h)],
            Attr::Udata(n) => seq![(a, ((a + n) % 0x1_0000_0000_0000_0000) as u64)],
            _ => Seq::empty(),
        },
        _ => Seq::empty(),
    }
}

/// The range from a first address to the end that goes with it, given as an address or as a
/// length.
pub fn bounds(low: Attr, high: Attr) -> (r: Vec<(u64, u64)>)
    ensures
        r@ == bounds_of(low, high),
{
    let mut out: Vec<(u64, u64)> = Vec::new();
    if let Attr::Addr(a) = low {
        match high {
            Attr::Addr(h) => out.push((a, h)),
            Attr::Udata(n) => out.push((a, a.wrapping_add(n))),
            _ => {},
        }
    }
    assert(out@ =~= bounds_of(low, high));
    out
}

/// The code of an entry by the offset of its range list: the list, or the simple bounds where
/// the list holds nothing.
pub open spec fn listed_or_bounds(unit: UnitShape, entry: u64, list: u64) -> Seq<(u64, u64)> {
    let listed = match unit.range_lists[list] {
        Some(ranges) => readable_ranges(ranges),
        None => Seq::empty(),
    };
    if listed.len() > 0 {
        listed
    } else {
        bounds_of(unit.attrs[(entry, AT_LOW_PC)], unit.attrs[(entry, AT_HIGH_PC)])
    }
}

/// The address ranges of an entry's code.
pub open spec fn entry_ranges(unit: UnitShape, entry: u64) -> Seq<(u64, u64)> {
    match unit.attrs[(entry, AT_RANGES)] {
        Attr::Missing => bounds_of(
            unit.attrs[(entry, AT_LOW_PC)],
            unit.attrs[(entry, AT_HIGH_PC)],
        ),
        Attr::RangeList(list) => listed_or_bounds(unit, entry, list),
        Attr::RangeIndex(index) => match unit.range_table.offset(index) {
            Some(list) => listed_or_bounds(unit, entry, list),
            None => Seq::empty(),
        },
        _ => Seq::empty(),
    }
}

/// The address ranges of an entry's code.
fn get_die_ranges(unit: &OpenUnit, entry: u64) -> (r: Vec<(u64, u64)>)
    ensures
        r@ == entry_ranges(unit_in(*unit), entry),
{
    let none: Vec<(u64, u64)> = Vec::new();
    assert(none@ =~= Seq::<(u64, u64)>::empty());
    let list: Option<u64> = match entry_attr(unit, entry, AT_RANGES) {
        Attr::Missing => None,
        Attr::RangeList(list) => Some(list),
        Attr::RangeIndex(index) => match range_table(unit).offset(index) {
            Some(list) => Some(list),
            None => {
                return none;
            },
        },
        _ => {
            return none;
        },
    };
    if let Some(offset) = list {
        if let Some(ranges) = range_list(unit, offset) {
            let listed = collect_ranges(ranges.as_slice());
            if listed.len() > 0 {
                return listed;
            }
        }
    }
    bounds(entry_attr(unit, entry, AT_LOW_PC), entry_attr(unit, entry, AT_HIGH_PC))
}

/// Whether an entry's code holds an address.
fn die_covers_pc(unit: &OpenUnit, entry: u64, pc: u64) -> (r: bool)
    ensures
        r == covered(entry_ranges(unit_in(*unit), entry), pc),
{
    let ranges = get_die_ranges(unit, entry);
    ranges_cover(ranges.as_slice(), pc)
}

// ---------------------------------------------------------------------------
// Functions

/// The name of the first function among the entries that holds an address and has a name.
pub open spec fn function_in(unit: UnitShape, entries: Seq<Result<Entry, Seq<char>>>, pc: u64) -> Result<
    Option<Seq<char>>,
    Seq<char>,
>
    decreases entries.len(),
{
    if entries.len() == 0 {
        Ok(None)
    } else {
        match entries[0] {
            Err(e) => Err(e),
            Ok(entry) => if entry.tag == TAG_SUBPROGRAM && covered(
                entry_ranges(unit, entry.offset),
                pc,
            ) && unit.attr_texts[(entry.offset, AT_NAME)] is Some {
                match unit.attr_texts[(entry.offset, AT_NAME)]->0 {
                    Ok(name) => Ok(Some(name)),
                    Err(e) => Err(e),
                }
            } else {
                function_in(unit, entries.drop_first(), pc)
            },
        }
    }
}

/// The name of the function that holds an address, by the first unit that has one.
pub open spec fn function_at(units: Seq<Result<UnitShape, Seq<char>>>, pc: u64) -> Result<
    Option<Seq<char>>,
    Seq<char>,
>
    decreases units.len(),
{
    if units.len() == 0 {
        Ok(None)
    } else {
        match units[0] {
            Err(e) => Err(e),
            Ok(unit) => match function_in(unit, unit.entries, pc) {
                Ok(None) => function_at(units.drop_first(), pc),
                found => found,
            },
        }
    }
}

/// The ranges of the first function among the entries that holds an address.
pub open spec fn ranges_in(unit: UnitShape, entries: Seq<Result<Entry, Seq<char>>>, pc: u64) -> Result<
    Option<Seq<(u64, u64)>>,
    Seq<char>,
>
    decreases entries.len(),
{
    if entries.len() == 0 {
        Ok(None)
    } else {
        match entries[0] {
            Err(e) => Err(e),
            Ok(entry) => if entry.tag == TAG_SUBPROGRAM && covered(
                entry_ranges(unit, entry.offset),
                pc,
            ) {
                Ok(Some(entry_ranges(unit, entry.offset)))
            } else {
                ranges_in(unit, entries.drop_first(), pc)
            },
        }
    }
}

/// The ranges of the function that holds an address, by the first unit that has one.
pub open spec fn function_ranges_at(units: Seq<Result<UnitShape, Seq<char>>>, pc: u64) -> Result<
    Option<Seq<(u64, u64)>>,
    Seq<char>,
>
    decreases units.len(),
{
    if units.len() == 0 {
        Ok(None)
    } else {
        match units[0] {
            Err(e) => Err(e),
            Ok(unit) => match ranges_in(unit, unit.entries, pc) {
                Ok(None) => function_ranges_at(units.drop_first(), pc),
                found => found,
            },
        }
    }
}

/// The name of the function of a unit that holds an address.
fn unit_function(unit: &OpenUnit, pc: u64) -> (r: Result<Option<String>, String>)
    ensures
        match function_in(unit_in(*unit), unit_in(*unit).entries, pc) {
            Ok(Some(name)) => r matches Ok(Some(x)) && x@ == name,
            Ok(None) => r matches Ok(None),
            Err(e) => r matches Err(x) && x@ == e,
        },
{
    let entries = unit_entries(unit);
    let ghost shape = unit_in(*unit);
    let ghost all = shape.entries;
    assert(all.skip(0) =~= all);
    for i in 0..entries.len()
        invariant
            shape == unit_in(*unit),
            all == shape.entries,
            entry_results(entries@) == all,
            function_in(shape, all, pc) == function_in(shape, all.skip(i as int), pc),
    {
        assert(all.skip(i as int)[0] == all[i as int]);
        assert(all.skip(i as int).drop_first() =~= all.skip(i + 1));
        assert(all[i as int] == entry_results(entries@)[i as int]);
        match &entries[i] {
            Err(e) => {
                return Err(e.clone());
            },
            Ok(entry) => {
                if entry.tag == TAG_SUBPROGRAM && die_covers_pc(unit, entry.offset, pc) {
                    if let Some(text) = entry_text(unit, entry.offset, AT_NAME) {
                        return match text {
                            Ok(name) => Ok(Some(name)),
                            Err(e) => Err(e),
                        };
                    }
                }
            },
        }
    }
    assert(all.skip(entries@.len() as int).len() == 0);
    Ok(None)
}

/// The ranges of the function of a unit that holds an address.
fn unit_function_ranges(unit: &OpenUnit, pc: u64) -> (r: Result<Option<Vec<(u64, u64)>>, String>)
    ensures
        match ranges_in(unit_in(*unit), unit_in(*unit).entries, pc) {
            Ok(Some(ranges)) => r matches Ok(Some(x)) && x@ == ranges,
            Ok(None) => r matches Ok(None),
            Err(e) => r matches Err(x) && x@ == e,
        },
{
    let entries = unit_entries(unit);
    let ghost shape = unit_in(*unit);
    let ghost all = shape.entries;
    assert(all.skip(0) =~= all);
    for i in 0..entries.len()
        invariant
            shape == unit_in(*unit),
            all == shape.entries,
            entry_results(entries@) == all,
            ranges_in(shape, all, pc) == ranges_in(shape, all.skip(i as int), pc),
    {
        assert(all.skip(i as int)[0] == all[i as int]);
        assert(all.skip(i as int).drop_first() =~= all.skip(i + 1));
        assert(all[i as int] == entry_results(entries@)[i as int]);
        match &entries[i] {
            Err(e) => {
                return Err(e.clone());
            },
            Ok(entry) => {
                if entry.tag == TAG_SUBPROGRAM {
                    let ranges = get_die_ranges(unit, entry.offset);
                    if ranges_cover(ranges.as_slice(), pc) {
                        return Ok(Some(ranges));
                    }
                }
            },
        }
    }
    assert(all.skip(entries@.len() as int).len() == 0);
    Ok(None)
}

// ---------------------------------------------------------------------------
// Source files

/// The path of a source file: its name, behind its directory where it is not absolute and has
/// one other than the directory of the compilation.
pub open spec fn path_of(file: FileShape) -> Result<Seq<char>, Seq<char>> {
    match file.name {
        Err(e) => Err(e),
        Ok(name) => if begins(name, "/"@) || file.directory_index == 0 {
            Ok(name)
        } else {
            match file.directory {
                None => Ok(name),
                Some(Err(e)) => Err(e),
                Some(Ok(dir)) => Ok(
                    if dir.len() == 0 {
                        name
                    } else if ends(dir, "/"@) {
                        dir + name
                    } else {
                        dir + "/"@ + name
                    },
                ),
            }
        },
    }
}

/// The path of a source file: its name, behind its directory where it is not absolute and has
/// one other than the directory of the compilation.
pub fn file_path(file: &LineFile) -> (r: Result<String, String>)
    ensures
        text_or_fault(r) == path_of(file@),
{
    let name = match &file.name {
        Ok(name) => name.clone(),
        Err(e) => {
            return Err(e.clone());
        },
    };
    if starts_with(name.as_str(), "/") || file.directory_index == 0 {
        return Ok(name);
    }
    match &file.directory {
        None => Ok(name),
        Some(Err(e)) => Err(e.clone()),
        Some(Ok(dir)) => {
            if dir.as_str().unicode_len() == 0 {
                Ok(name)
            } else if ends_with(dir.as_str(), "/") {
                let mut path = dir.clone();
                path.append(name.as_str());
                Ok(path)
            } else {
                let mut path = dir.clone();
                path.append("/");
                path.append(name.as_str());
                Ok(path)
            }
        },
    }
}

/// A source file is meant by a name that it or its path has, or that its path ends in.
pub open spec fn is_meant(name: Seq<char>, path: Seq<char>, wanted: Seq<char>) -> bool {
    ends(path, wanted) || name == wanted || path == wanted
}

/// Whether a source file is meant by a name.
pub fn file_is_meant(name: &str, path: &str, wanted: &str) -> (r: bool)
    ensures
        r == is_meant(name@, path@, wanted@),
{
    ends_with(path, wanted) || same(name, wanted) || same(path, wanted)
}

// ---------------------------------------------------------------------------
// From an address to a source line

/// The first entry for a whole compilation decides whether a unit is about an address.
pub open spec fn unit_covers(unit: UnitShape, entries: Seq<Result<Entry, Seq<char>>>, pc: u64) -> Result<
    bool,
    Seq<char>,
>
    decreases entries.len(),
{
    if entries.len() == 0 {
        Ok(false)
    } else {
        match entries[0] {
            Err(e) => Err(e),
            Ok(entry) => if entry.tag == TAG_COMPILE_UNIT {
                Ok(covered(entry_ranges(unit, entry.offset), pc))
            } else {
                unit_covers(unit, entries.drop_first(), pc)
            },
        }
    }
}

/// The source line of the last row not past an address, in the first sequence of rows that the
/// address does not lie behind; `best` is the line of the rows of the sequence seen before.
pub open spec fn line_in(
    rows: Seq<Result<RowShape, Seq<char>>>,
    pc: u64,
    best: Option<(Seq<char>, u64)>,
) -> Result<Option<(Seq<char>, u64)>, Seq<char>>
    decreases rows.len(),
{
    if rows.len() == 0 {
        Ok(None)
    } else {
        match rows[0] {
            Err(e) => Err(e),
            Ok(shape) => if shape.row.end_sequence {
                if pc < shape.row.address && best is Some {
                    Ok(best)
                } else {
                    line_in(rows.drop_first(), pc, None)
                }
            } else if shape.row.address > pc {
                Ok(best)
            } else {
                match (shape.row.line, shape.file) {
                    (Some(line), Some(file)) => match path_of(file) {
                        Ok(path) => line_in(rows.drop_first(), pc, Some((path, line))),
                        Err(e) => Err(e),
                    },
                    _ => line_in(rows.drop_first(), pc, best),
                }
            },
        }
    }
}

/// The source line of an address, by the first unit that covers it and has a line for it.
pub open spec fn line_at(units: Seq<Result<UnitShape, Seq<char>>>, pc: u64) -> Result<
    Option<(Seq<char>, u64)>,
    Seq<char>,
>
    decreases units.len(),
{
    if units.len() == 0 {
        Ok(None)
    } else {
        match units[0] {
            Err(e) => Err(e),
            Ok(unit) => match unit_covers(unit, unit.entries, pc) {
                Err(e) => Err(e),
                Ok(covers) => match unit.table() {
                    Some(rows) if covers => match line_in(rows, pc, None) {
                        Ok(None) => line_at(units.drop_first(), pc),
                        found => found,
                    },
                    _ => line_at(units.drop_first(), pc),
                },
            },
        }
    }
}

/// A source line as mathematical values.
pub open spec fn line_text(line: Option<(String, u64)>) -> Option<(Seq<char>, u64)> {
    match line {
        Some((file, number)) => Some((file@, number)),
        None => None,
    }
}

/// What one row of a line program means for the search for an address.
#[derive(Clone, Copy, Debug, PartialEq, Eq, Structural)]
pub enum RowStep {
    /// The line found so far is the answer.
    Found,
    /// The sequence is over and the line found in it is not the answer.
    NewSequence,
    /// The address lies before this row, and no line was found.
    Past,
    /// The row has this line, should it have a file.
    Line(u64),
    /// The row says nothing.
    Skip,
}

/// What a row means for the search for an address, when a line was found before or not.
pub open spec fn row_step(row: LineRow, pc: u64, found: bool) -> RowStep {
    if row.end_sequence {
        if pc < row.address && found {
            RowStep::Found
        } else {
            RowStep::NewSequence
        }
    } else if row.address > pc {
        if found {
            RowStep::Found
        } else {
            RowStep::Past
        }
    } else {
        match row.line {
            Some(line) => RowStep::Line(line),
            None => RowStep::Skip,
        }
    }
}

/// Decides what a row means for the search for an address.
pub fn look_at_row(row: LineRow, pc: u64, found: bool) -> (r: RowStep)
    ensures
        r == row_step(row, pc, found),
{
    if row.end_sequence {
        if pc < row.address && found {
            RowStep::Found
        } else {
            RowStep::NewSequence
        }
    } else if row.address > pc {
        if found {
            RowStep::Found
        } else {
            RowStep::Past
        }
    } else {
        match row.line {
            Some(line) => RowStep::Line(line),
            None => RowStep::Skip,
        }
    }
}

/// Whether a unit is about an address.
fn unit_covers_pc(unit: &OpenUnit, pc: u64) -> (r: Result<bool, String>)
    ensures
        match unit_covers(unit_in(*unit), unit_in(*unit).entries, pc) {
            Ok(covers) => r matches Ok(x) && x == covers,
            Err(e) => r matches Err(x) && x@ == e,
        },
{
    let entries = unit_entries(unit);
    let ghost shape = unit_in(*unit);
    let ghost all = shape.entries;
    assert(all.skip(0) =~= all);
    for i in 0..entries.len()
        invariant
            shape == unit_in(*unit),
            all == shape.entries,
            entry_results(entries@) == all,
            unit_covers(shape, all, pc) == unit_covers(shape, all.skip(i as int), pc),
    {
        assert(all.skip(i as int)[0] == all[i as int]);
        assert(all.skip(i as int).drop_first() =~= all.skip(i + 1));
        assert(all[i as int] == entry_results(entries@)[i as int]);
        match &entries[i] {
            Err(e) => {
                return Err(e.clone());
            },
            Ok(entry) => {
                if entry.tag == TAG_COMPILE_UNIT {
                    return Ok(die_covers_pc(unit, entry.offset, pc));
                }
            },
        }
    }
    assert(all.skip(entries@.len() as int).len() == 0);
    Ok(false)
}

/// The source line of an address in a unit's line program.
fn unit_line(unit: &OpenUnit, pc: u64) -> (r: Result<Option<(String, u64)>, String>)
    ensures
        match unit_in(*unit).table() {
            None => r matches Ok(None),
            Some(rows) => match line_in(rows, pc, None) {
                Ok(line) => r matches Ok(x) && line_text(x) == line,
                Err(e) => r matches Err(x) && x@ == e,
            },
        },
        r matches Ok(Some(found)) ==> found.1 > 0,
{
    let mut rows = match unit_rows(unit) {
        Ok(Some(rows)) => rows,
        Ok(None) => {
            return Ok(None);
        },
        Err(e) => {
            return Err(e);
        },
    };
    let ghost all = rows_left(rows);
    let mut best: Option<(String, u64)> = None;
    loop
        invariant
            unit_in(*unit).table() == Some(all),
            line_in(all, pc, None) == line_in(rows_left(rows), pc, line_text(best)),
            best matches Some(found) ==> found.1 > 0,
        decreases rows_left(rows).len(),
    {
        let ghost left = rows_left(rows);
        let row = match next_row(&mut rows) {
            Ok(Some(row)) => row,
            Ok(None) => {
                return Ok(None);
            },
            Err(e) => {
                return Err(e);
            },
        };
        match look_at_row(row, pc, best.is_some()) {
            RowStep::Found => {
                return Ok(best);
            },
            RowStep::NewSequence => {
                best = None;
            },
            RowStep::Past => {
                return Ok(None);
            },
            RowStep::Line(line) => {
                if let Some(file) = row_file(&rows) {
                    match file_path(&file) {
                        Ok(path) => {
                            best = Some((path, line));
                        },
                        Err(e) => {
                            return Err(e);
                        },
                    }
                }
            },
            RowStep::Skip => {},
        }
    }
}

// ---------------------------------------------------------------------------
// From source lines to addresses

/// The addresses of rows that lie in the ranges, but for the excluded one, each once and after
/// those found before.
pub open spec fn addresses_in(
    rows: Seq<Result<RowShape, Seq<char>>>,
    ranges: Seq<(u64, u64)>,
    exclude: u64,
    before: Seq<u64>,
) -> Result<Seq<u64>, Seq<char>>
    decreases rows.len(),
{
    if rows.len() == 0 {
        Ok(before)
    } else {
        match rows[0] {
            Err(e) => Err(e),
            Ok(shape) => addresses_in(
                rows.drop_first(),
                ranges,
                exclude,
                if !shape.row.end_sequence && covered(ranges, shape.row.address)
                    && shape.row.address != exclude && !before.contains(shape.row.address) {
                    before.push(shape.row.address)
                } else {
                    before
                },
            ),
        }
    }
}

/// The same over the rows of all units.
pub open spec fn line_addresses(
    units: Seq<Result<UnitShape, Seq<char>>>,
    ranges: Seq<(u64, u64)>,
    exclude: u64,
    before: Seq<u64>,
) -> Result<Seq<u64>, Seq<char>>
    decreases units.len(),
{
    if units.len() == 0 {
        Ok(before)
    } else {
        match units[0] {
            Err(e) => Err(e),
            Ok(unit) => match unit.table() {
                None => line_addresses(units.drop_first(), ranges, exclude, before),
                Some(rows) => match addresses_in(rows, ranges, exclude, before) {
                    Err(e) => Err(e),
                    Ok(found) => line_addresses(units.drop_first(), ranges, exclude, found),
                },
            },
        }
    }
}

/// The addresses of rows of a line in the meant file, each once and after those found before.
pub open spec fn addresses_of_line(
    rows: Seq<Result<RowShape, Seq<char>>>,
    wanted: Seq<char>,
    line: u64,
    before: Seq<u64>,
) -> Result<Seq<u64>, Seq<char>>
    decreases rows.len(),
{
    if rows.len() == 0 {
        Ok(before)
    } else {
        match rows[0] {
            Err(e) => Err(e),
            Ok(shape) => match shape.file {
                Some(file) if !shape.row.end_sequence && shape.row.line == Some(line) =>
                match path_of(file) {
                    Err(e) => Err(e),
                    Ok(path) => addresses_of_line(
                        rows.drop_first(),
                        wanted,
                        line,
                        if is_meant(file.name->Ok_0, path, wanted) && !before.contains(
                            shape.row.address,
                        ) {
                            before.push(shape.row.address)
                        } else {
                            before
                        },
                    ),
                },
                _ => addresses_of_line(rows.drop_first(), wanted, line, before),
            },
        }
    }
}

/// The same over the rows of all units.
pub open spec fn source_addresses(
    units: Seq<Result<UnitShape, Seq<char>>>,
    wanted: Seq<char>,
    line: u64,
    before: Seq<u64>,
) -> Result<Seq<u64>, Seq<char>>
    decreases units.len(),
{
    if units.len() == 0 {
        Ok(before)
    } else {
        match units[0] {
            Err(e) => Err(e),
            Ok(unit) => match unit.table() {
                None => source_addresses(units.drop_first(), wanted, line, before),
                Some(rows) => match addresses_of_line(rows, wanted, line, before) {
                    Err(e) => Err(e),
                    Ok(found) => source_addresses(units.drop_first(), wanted, line, found),
                },
            },
        }
    }
}

/// Appends the addresses of a unit's rows that lie in the ranges.
fn unit_addresses(unit: &OpenUnit, ranges: &[(u64, u64)], exclude: u64, found: Vec<u64>) -> (r:
    Result<Vec<u64>, String>)
    ensures
        match unit_in(*unit).table() {
            None => r matches Ok(x) && x@ == found@,
            Some(rows) => match addresses_in(rows, ranges@, exclude, found@) {
                Ok(all) => r matches Ok(x) && x@ == all,
                Err(e) => r matches Err(x) && x@ == e,
            },
        },
{
    let mut rows = match unit_rows(unit) {
        Ok(Some(rows)) => rows,
        Ok(None) => {
            return Ok(found);
        },
        Err(e) => {
            return Err(e);
        },
    };
    let ghost all = rows_left(rows);
    let mut out = found;
    loop
        invariant
            unit_in(*unit).table() == Some(all),
            addresses_in(all, ranges@, exclude, found@) == addresses_in(
                rows_left(rows),
                ranges@,
                exclude,
                out@,
            ),
        decreases rows_left(rows).len(),
    {
        let row = match next_row(&mut rows) {
            Ok(Some(row)) => row,
            Ok(None) => {
                return Ok(out);
            },
            Err(e) => {
                return Err(e);
            },
        };
        if !row.end_sequence && ranges_cover(ranges, row.address) && row.address != exclude {
            push_new(&mut out, row.address);
        }
    }
}

/// Appends the addresses of a unit's rows of a line in the meant file.
fn unit_line_addresses(unit: &OpenUnit, wanted: &str, line: u64, found: Vec<u64>) -> (r: Result<
    Vec<u64>,
    String,
>)
    ensures
        match unit_in(*unit).table() {
            None => r matches Ok(x) && x@ == found@,
            Some(rows) => match addresses_of_line(rows, wanted@, line, found@) {
                Ok(all) => r matches Ok(x) && x@ == all,
                Err(e) => r matches Err(x) && x@ == e,
            },
        },
{
    let mut rows = match unit_rows(unit) {
        Ok(Some(rows)) => rows,
        Ok(None) => {
            return Ok(found);
        },
        Err(e) => {
            return Err(e);
        },
    };
    let ghost all = rows_left(rows);
    let mut out = found;
    loop
        invariant
            unit_in(*unit).table() == Some(all),
            addresses_of_line(all, wanted@, line, found@) == addresses_of_line(
                rows_left(rows),
                wanted@,
                line,
                out@,
            ),
        decreases rows_left(rows).len(),
    {
        let row = match next_row(&mut rows) {
            Ok(Some(row)) => row,
            Ok(None) => {
                return Ok(out);
            },
            Err(e) => {
                return Err(e);
            },
        };
        if row.end_sequence || row.line != Some(line) {
            continue ;
        }
        if let Some(file) = row_file(&rows) {
            let path = match file_path(&file) {
                Ok(path) => path,
                Err(e) => {
                    return Err(e);
                },
            };
            if let Ok(name) = &file.name {
                if file_is_meant(name.as_str(), path.as_str(), wanted) {
                    push_new(&mut out, row.address);
                }
            }
        }
    }
}

// ---------------------------------------------------------------------------
// The queries

/// A result with its text and error as mathematical values.
pub open spec fn opt_text_result(r: Result<Option<String>, TargetError>) -> Result<
    Option<Seq<char>>,
    Seq<Seq<char>>,
> {
    match r {
        Ok(Some(s)) => Ok(Some(s@)),
        Ok(None) => Ok(None),
        Err(e) => Err(e@),
    }
}

/// A result with its source line and error as mathematical values.
pub open spec fn line_result(r: Result<Option<(String, u64)>, TargetError>) -> Result<
    Option<(Seq<char>, u64)>,
    Seq<Seq<char>>,
> {
    match r {
        Ok(line) => Ok(line_text(line)),
        Err(e) => Err(e@),
    }
}

/// A result with its ranges and error as mathematical values.
pub open spec fn ranges_result(r: Result<Option<Vec<(u64, u64)>>, TargetError>) -> Result<
    Option<Seq<(u64, u64)>>,
    Seq<Seq<char>>,
> {
    match r {
        Ok(Some(v)) => Ok(Some(v@)),
        Ok(None) => Ok(None),
        Err(e) => Err(e@),
    }
}

/// A result with its addresses and error as mathematical values.
pub open spec fn addresses_result(r: Result<Vec<u64>, TargetError>) -> Result<
    Seq<u64>,
    Seq<Seq<char>>,
> {
    match r {
        Ok(v) => Ok(v@),
        Err(e) => Err(e@),
    }
}

/// Answers questions from the DWARF sections of a program.
#[derive(Debug)]
pub struct DebugParser {
    pub image: DwarfImage,
}

impl View for DebugParser {
    type V = ImageShape;

    open spec fn view(&self) -> ImageShape {
        self.image@
    }
}

impl DebugParser {
    /// Reads the DWARF sections of a program file.
    pub fn new(bytes: &[u8]) -> (r: Result<Self, TargetError>)
        ensures
            match image_of(bytes@) {
                Ok(image) => r matches Ok(x) && x@ == image,
                Err(e) => r matches Err(x) && x@ == e,
            },
    {
        match DwarfImage::load(bytes) {
            Ok(image) => Ok(DebugParser { image }),
            Err(e) => Err(e),
        }
    }

    /// The units of the program.
    pub open spec fn units(&self) -> Seq<Result<UnitShape, Seq<char>>> {
        units_in_image(self@)
    }

    /// The source file and line of an address.
    pub fn pc_to_file_line(&self, pc: u64) -> (r: Result<Option<(String, u64)>, TargetError>)
        ensures
            line_result(r) == one_message(line_at(self.units(), pc)),
            r matches Ok(Some(found)) ==> found.1 > 0,
    {
        let ghost units = self.units();
        let mut number: usize = 0;
        assert(units.skip(0) =~= units);
        loop
            invariant
                units == units_of(self.image@.little_endian, self.image@.sections),
                number <= units.len(),
                line_at(units, pc) == line_at(units.skip(number as int), pc),
            decreases units.len() - number,
        {
            let ghost rest = units.skip(number as int);
            let unit = match open_unit(&self.image, number) {
                Ok(Some(unit)) => unit,
                Ok(None) => {
                    return Ok(None);
                },
                Err(e) => {
                    return Err(TargetError::new(e));
                },
            };
            assert(rest[0] == units[number as int]);
            assert(rest.drop_first() =~= units.skip(number + 1));
            match unit_covers_pc(&unit, pc) {
                Err(e) => {
                    return Err(TargetError::new(e));
                },
                Ok(true) => {
                    match unit_line(&unit, pc) {
                        Err(e) => {
                            return Err(TargetError::new(e));
                        },
                        Ok(Some(line)) => {
                            return Ok(Some(line));
                        },
                        Ok(None) => {},
                    }
                },
                Ok(false) => {},
            }
            number = number + 1;
        }
    }

    /// The name of the function that holds an address.
    pub fn pc_to_function(&self, pc: u64) -> (r: Result<Option<String>, TargetError>)
        ensures
            opt_text_result(r) == one_message(function_at(self.units(), pc)),
    {
        let ghost units = self.units();
        let mut number: usize = 0;
        assert(units.skip(0) =~= units);
        loop
            invariant
                units == units_of(self.image@.little_endian, self.image@.sections),
                number <= units.len(),
                function_at(units, pc) == function_at(units.skip(number as int), pc),
            decreases units.len() - number,
        {
            let ghost rest = units.skip(number as int);
            let unit = match open_unit(&self.image, number) {
                Ok(Some(unit)) => unit,
                Ok(None) => {
                    return Ok(None);
                },
                Err(e) => {
                    return Err(TargetError::new(e));
                },
            };
            assert(rest[0] == units[number as int]);
            assert(rest.drop_first() =~= units.skip(number + 1));
            match unit_function(&unit, pc) {
                Err(e) => {
                    return Err(TargetError::new(e));
                },
                Ok(Some(name)) => {
                    return Ok(Some(name));
                },
                Ok(None) => {},
            }
            number = number + 1;
        }
    }

    /// The address ranges of the function that holds an address.
    pub fn get_function_ranges(&self, pc: u64) -> (r: Result<
        Option<Vec<(u64, u64)>>,
        TargetError,
    >)
        ensures
            ranges_result(r) == one_message(function_ranges_at(self.units(), pc)),
    {
        let ghost units = self.units();
        let mut number: usize = 0;
        assert(units.skip(0) =~= units);
        loop
            invariant
                units == units_of(self.image@.little_endian, self.image@.sections),
                number <= units.len(),
                function_ranges_at(units, pc) == function_ranges_at(
                    units.skip(number as int),
                    pc,
                ),
            decreases units.len() - number,
        {
            let ghost rest = units.skip(number as int);
            let unit = match open_unit(&self.image, number) {
                Ok(Some(unit)) => unit,
                Ok(None) => {
                    return Ok(None);
                },
                Err(e) => {
                    return Err(TargetError::new(e));
                },
            };
            assert(rest[0] == units[number as int]);
            assert(rest.drop_first() =~= units.skip(number + 1));
            match unit_function_ranges(&unit, pc) {
                Err(e) => {
                    return Err(TargetError::new(e));
                },
                Ok(Some(ranges)) => {
                    return Ok(Some(ranges));
                },
                Ok(None) => {},
            }
            number = number + 1;
        }
    }

    /// The line table addresses in the ranges, each once, but for one address.
    pub fn get_line_addresses_in_ranges(&self, ranges: &[(u64, u64)], exclude_addr: u64) -> (r:
        Result<Vec<u64>, TargetError>)
        ensures
            addresses_result(r) == one_message(
                line_addresses(self.units(), ranges@, exclude_addr, Seq::empty()),
            ),
    {
        let ghost units = self.units();
        let mut number: usize = 0;
        let mut found: Vec<u64> = Vec::new();
        assert(units.skip(0) =~= units);
        assert(found@ =~= Seq::<u64>::empty());
        let ghost want = line_addresses(units, ranges@, exclude_addr, Seq::empty());
        loop
            invariant
                units == units_of(self.image@.little_endian, self.image@.sections),
                number <= units.len(),
                want == line_addresses(units, ranges@, exclude_addr, Seq::empty()),
                want == line_addresses(units.skip(number as int), ranges@, exclude_addr, found@),
            decreases units.len() - number,
        {
            let ghost rest = units.skip(number as int);
            let unit = match open_unit(&self.image, number) {
                Ok(Some(unit)) => unit,
                Ok(None) => {
                    return Ok(found);
                },
                Err(e) => {
                    return Err(TargetError::new(e));
                },
            };
            assert(rest[0] == units[number as int]);
            assert(rest.drop_first() =~= units.skip(number + 1));
            found = match unit_addresses(&unit, ranges, exclude_addr, found) {
                Ok(found) => found,
                Err(e) => {
                    return Err(TargetError::new(e));
                },
            };
            number = number + 1;
        }
    }

    /// The addresses of a source line, each once.
    pub fn file_line_to_addr(&self, filename: &str, line_num: u64) -> (r: Result<
        Vec<u64>,
        TargetError,
    >)
        ensures
            addresses_result(r) == one_message(
                source_addresses(self.units(), filename@, line_num, Seq::empty()),
            ),
    {
        let ghost units = self.units();
        let mut number: usize = 0;
        let mut found: Vec<u64> = Vec::new();
        assert(units.skip(0) =~= units);
        assert(found@ =~= Seq::<u64>::empty());
        let ghost want = source_addresses(units, filename@, line_num, Seq::empty());
        loop
            invariant
                units == units_of(self.image@.little_endian, self.image@.sections),
                number <= units.len(),
                want == source_addresses(units, filename@, line_num, Seq::empty()),
                want == source_addresses(units.skip(number as int), filename@, line_num, found@),
            decreases units.len() - number,
        {
            let ghost rest = units.skip(number as int);
            let unit = match open_unit(&self.image, number) {
                Ok(Some(unit)) => unit,
                Ok(None) => {
                    return Ok(found);
                },
                Err(e) => {
                    return Err(TargetError::new(e));
                },
            };
            assert(rest[0] == units[number as int]);
            assert(rest.drop_first() =~= units.skip(number + 1));
            found = match unit_line_addresses(&unit, filename, line_num, found) {
                Ok(found) => found,
                Err(e) => {
                    return Err(TargetError::new(e));
                },
            };
            number = number + 1;
        }
    }
}

/// The debugging information of a program.
#[derive(Debug)]
pub struct ElfDebugInfo {
    inner: DebugParser,
}

impl View for ElfDebugInfo {
    type V = ImageShape;

    closed spec fn view(&self) -> ImageShape {
        self.inner@
    }
}

impl ElfDebugInfo {
    /// The units of the program.
    pub open spec fn units(&self) -> Seq<Result<UnitShape, Seq<char>>> {
        units_in_image(self@)
    }

    /// Reads the debugging information from the bytes of a program file.
    pub fn new(bytes: &[u8]) -> (r: Result<Self, TargetError>)
        ensures
            match image_of(bytes@) {
                Ok(image) => r matches Ok(x) && x@ == image,
                Err(e) => r matches Err(x) && x@ == e,
            },
    {
        match DebugParser::new(bytes) {
            Ok(inner) => Ok(ElfDebugInfo { inner }),
            Err(e) => Err(e),
        }
    }

    /// The source file and line of an address.
    pub fn pc_to_file_line(&self, pc: u64) -> (r: Result<Option<(String, u64)>, TargetError>)
        ensures
            line_result(r) == one_message(line_at(self.units(), pc)),
            r matches Ok(Some(found)) ==> found.1 > 0,
    {
        self.inner.pc_to_file_line(pc)
    }

    /// The name of the function that holds an address.
    pub fn pc_to_function(&self, pc: u64) -> (r: Result<Option<String>, TargetError>)
        ensures
            opt_text_result(r) == one_message(function_at(self.units(), pc)),
    {
        self.inner.pc_to_function(pc)
    }

    /// The address ranges of the function that holds an address.
    pub fn get_function_ranges(&self, pc: u64) -> (r: Result<
        Option<Vec<(u64, u64)>>,
        TargetError,
    >)
        ensures
            ranges_result(r) == one_message(function_ranges_at(self.units(), pc)),
    {
        self.inner.get_function_ranges(pc)
    }

    /// The line table addresses in the ranges, each once, but for one address.
    pub fn get_line_addresses_in_ranges(&self, ranges: &[(u64, u64)], exclude_addr: u64) -> (r:
        Result<Vec<u64>, TargetError>)
        ensures
            addresses_result(r) == one_message(
                line_addresses(self.units(), ranges@, exclude_addr, Seq::empty()),
            ),
    {
        self.inner.get_line_addresses_in_ranges(ranges, exclude_addr)
    }

    /// The addresses of a source line, each once.
    pub fn file_line_to_addr(&self, filename: &str, line_num: u64) -> (r: Result<
        Vec<u64>,
        TargetError,
    >)
        ensures
            addresses_result(r) == one_message(
                source_addresses(self.units(), filename@, line_num, Seq::empty()),
            ),
    {
        self.inner.file_line_to_addr(filename, line_num)
    }
}

// ---------------------------------------------------------------------------
// What is known of an address

/// An answer where there is one.
pub open spec fn known<A>(r: Result<Option<A>, Seq<char>>) -> Option<A> {
    match r {
        Ok(a) => a,
        Err(_) => None,
    }
}

/// The function of an address in a program, where it is known.
pub open spec fn known_function(image: ImageShape, pc: u64) -> Option<Seq<char>> {
    known(function_at(units_in_image(image), pc))
}

/// The source line of an address in a program, where it is known.
pub open spec fn known_line(image: ImageShape, pc: u64) -> Option<(Seq<char>, u64)> {
    known(line_at(units_in_image(image), pc))
}

/// The function of an address in a program, where it is known.
pub fn find_function(info: &ElfDebugInfo, pc: u64) -> (r: Option<String>)
    ensures
        r.deep_view() == known_function(info@, pc),
{
    match info.pc_to_function(pc) {
        Ok(func) => func,
        Err(_) => None,
    }
}

/// The source line of an address in a program, where it is known.
pub fn find_line(info: &ElfDebugInfo, pc: u64) -> (r: Option<(String, u64)>)
    ensures
        r.deep_view() == known_line(info@, pc),
{
    match info.pc_to_file_line(pc) {
        Ok(line) => line,
        Err(_) => None,
    }
}

// ---------------------------------------------------------------------------
// What the answers keep to

/// A row says that the code from its address on belongs to a source line.
pub open spec fn row_says(row: Result<RowShape, Seq<char>>, path: Seq<char>, line: u64) -> bool {
    match row {
        Ok(shape) => {
            &&& !shape.row.end_sequence
            &&& shape.row.line == Some(line)
            &&& shape.file matches Some(file) && path_of(file) == Ok::<Seq<char>, Seq<char>>(path)
        },
        Err(_) => false,
    }
}

/// A row of a sequence is not past an address.
pub open spec fn row_before(row: Result<RowShape, Seq<char>>, pc: u64) -> bool {
    row matches Ok(shape) && !shape.row.end_sequence && shape.row.address <= pc
}

/// A row has no source line or no file.
pub open spec fn row_silent(row: Result<RowShape, Seq<char>>) -> bool {
    row matches Ok(shape) && (shape.row.line is None || shape.file is None)
}

/// A row not past an address belongs to a source line, a later one is past the address, and those
/// between them are of the same sequence, not past the address and silent.
pub open spec fn is_row_behind(
    rows: Seq<Result<RowShape, Seq<char>>>,
    pc: u64,
    found: (Seq<char>, u64),
    at: int,
    next: int,
) -> bool {
    &&& 0 <= at < next < rows.len()
    &&& row_before(rows[at], pc)
    &&& row_says(rows[at], found.0, found.1)
    &&& rows[next] matches Ok(shape) && shape.row.address > pc
    &&& forall|k: int|
        at < k < next ==> row_before(#[trigger] rows[k], pc) && row_silent(rows[k])
}

/// Finds the row that a source line comes from, given that of the line found before.
proof fn lemma_line_from(
    rows: Seq<Result<RowShape, Seq<char>>>,
    pc: u64,
    from: int,
    best: Option<(Seq<char>, u64)>,
    at: int,
) -> (r: (int, int))
    requires
        0 <= from <= rows.len(),
        best matches Some(found) ==> {
            &&& 0 <= at < from
            &&& row_before(rows[at], pc)
            &&& row_says(rows[at], found.0, found.1)
            &&& forall|k: int|
                at < k < from ==> row_before(#[trigger] rows[k], pc) && row_silent(rows[k])
        },
    ensures
        line_in(rows.skip(from), pc, best) matches Ok(Some(found)) ==> is_row_behind(
            rows,
            pc,
            found,
            r.0,
            r.1,
        ),
    decreases rows.len() - from,
{
    let rest = rows.skip(from);
    if from < rows.len() {
        assert(rest[0] == rows[from]);
        assert(rest.drop_first() =~= rows.skip(from + 1));
        if let Ok(shape) = rows[from] {
            if shape.row.end_sequence {
                if pc < shape.row.address && best is Some {
                    (at, from)
                } else {
                    lemma_line_from(rows, pc, from + 1, None, at)
                }
            } else if shape.row.address > pc {
                (at, from)
            } else {
                match (shape.row.line, shape.file) {
                    (Some(line), Some(file)) => match path_of(file) {
                        Ok(path) => lemma_line_from(rows, pc, from + 1, Some((path, line)), from),
                        Err(_) => (at, from),
                    },
                    _ => lemma_line_from(rows, pc, from + 1, best, at),
                }
            }
        } else {
            (at, from)
        }
    } else {
        (at, from)
    }
}

/// The source line of an address is that of the last row with a line that is not past the
/// address, in a sequence that goes on past it.
pub proof fn lemma_line_has_row(rows: Seq<Result<RowShape, Seq<char>>>, pc: u64)
    ensures
        line_in(rows, pc, None) matches Ok(Some(found)) ==> exists|at: int, next: int|
            #[trigger] is_row_behind(rows, pc, found, at, next),
{
    assert(rows.skip(0) =~= rows);
    let (at, next) = lemma_line_from(rows, pc, 0, None, 0);
    if let Ok(Some(found)) = line_in(rows, pc, None) {
        assert(is_row_behind(rows, pc, found, at, next));
    }
}

/// A unit covers an address and its rows give a source line for it.
pub open spec fn unit_says(
    unit: Result<UnitShape, Seq<char>>,
    pc: u64,
    found: (Seq<char>, u64),
) -> bool {
    match unit {
        Ok(unit) => {
            &&& unit_covers(unit, unit.entries, pc) == Ok::<bool, Seq<char>>(true)
            &&& unit.table() matches Some(rows) && line_in(rows, pc, None) == Ok::<
                Option<(Seq<char>, u64)>,
                Seq<char>,
            >(Some(found))
        },
        Err(_) => false,
    }
}

/// The source line of an address comes from a unit that covers the address.
pub proof fn lemma_line_has_unit(units: Seq<Result<UnitShape, Seq<char>>>, pc: u64)
    ensures
        line_at(units, pc) matches Ok(Some(found)) ==> exists|i: int|
            0 <= i < units.len() && #[trigger] unit_says(units[i], pc, found),
    decreases units.len(),
{
    if units.len() > 0 {
        lemma_line_has_unit(units.drop_first(), pc);
        if let Ok(Some(found)) = line_at(units, pc) {
            if !unit_says(units[0], pc, found) {
                let i = choose|i: int|
                    0 <= i < units.drop_first().len() && #[trigger] unit_says(
                        units.drop_first()[i],
                        pc,
                        found,
                    );
                assert(unit_says(units[i + 1], pc, found));
            }
        }
    }
}

/// The addresses listed for ranges are all different, lie in the ranges and are not the
/// excluded one.
pub proof fn lemma_line_addresses(
    units: Seq<Result<UnitShape, Seq<char>>>,
    ranges: Seq<(u64, u64)>,
    exclude: u64,
)
    ensures
        line_addresses(units, ranges, exclude, Seq::empty()) matches Ok(found) ==> {
            &&& found.no_duplicates()
            &&& forall|i: int|
                0 <= i < found.len() ==> covered(ranges, #[trigger] found[i]) && found[i] != exclude
        },
{
    lemma_addresses_kept(units, ranges, exclude, Seq::empty());
}

/// Addresses that are all different and in the ranges stay so in all units.
proof fn lemma_addresses_kept(
    units: Seq<Result<UnitShape, Seq<char>>>,
    ranges: Seq<(u64, u64)>,
    exclude: u64,
    before: Seq<u64>,
)
    requires
        before.no_duplicates(),
        forall|i: int|
            0 <= i < before.len() ==> covered(ranges, #[trigger] before[i]) && before[i] != exclude,
    ensures
        line_addresses(units, ranges, exclude, before) matches Ok(found) ==> {
            &&& found.no_duplicates()
            &&& forall|i: int|
                0 <= i < found.len() ==> covered(ranges, #[trigger] found[i]) && found[i] != exclude
        },
    decreases units.len(),
{
    if units.len() > 0 {
        if let Ok(unit) = units[0] {
            match unit.table() {
                None => lemma_addresses_kept(units.drop_first(), ranges, exclude, before),
                Some(rows) => {
                    lemma_rows_kept(rows, ranges, exclude, before);
                    if let Ok(found) = addresses_in(rows, ranges, exclude, before) {
                        lemma_addresses_kept(units.drop_first(), ranges, exclude, found);
                    }
                },
            }
        }
    }
}

/// Addresses that are all different and in the ranges stay so in one line program.
proof fn lemma_rows_kept(
    rows: Seq<Result<RowShape, Seq<char>>>,
    ranges: Seq<(u64, u64)>,
    exclude: u64,
    before: Seq<u64>,
)
    requires
        before.no_duplicates(),
        forall|i: int|
            0 <= i < before.len() ==> covered(ranges, #[trigger] before[i]) && before[i] != exclude,
    ensures
        addresses_in(rows, ranges, exclude, before) matches Ok(found) ==> {
            &&& found.no_duplicates()
            &&& forall|i: int|
                0 <= i < found.len() ==> covered(ranges, #[trigger] found[i]) && found[i] != exclude
        },
    decreases rows.len(),
{
    if rows.len() > 0 {
        if let Ok(shape) = rows[0] {
            let address = shape.row.address;
            if !shape.row.end_sequence && covered(ranges, address) && address != exclude
                && !before.contains(address) {
                let next = before.push(address);
                assert forall|i: int| 0 <= i < next.len() implies covered(ranges, #[trigger] next[i])
                    && next[i] != exclude by {
                    if i < before.len() {
                        assert(next[i] == before[i]);
                    }
                }
                lemma_rows_kept(rows.drop_first(), ranges, exclude, next);
            } else {
                lemma_rows_kept(rows.drop_first(), ranges, exclude, before);
            }
        }
    }
}

/// The addresses of a source line are all different.
pub proof fn lemma_source_addresses(
    units: Seq<Result<UnitShape, Seq<char>>>,
    wanted: Seq<char>,
    line: u64,
)
    ensures
        source_addresses(units, wanted, line, Seq::empty()) matches Ok(found)
            ==> found.no_duplicates(),
{
    lemma_source_addresses_kept(units, wanted, line, Seq::empty());
}

/// Addresses that are all different stay so in all units.
proof fn lemma_source_addresses_kept(
    units: Seq<Result<UnitShape, Seq<char>>>,
    wanted: Seq<char>,
    line: u64,
    before: Seq<u64>,
)
    requires
        before.no_duplicates(),
    ensures
        source_addresses(units, wanted, line, before) matches Ok(found) ==> found.no_duplicates(),
    decreases units.len(),
{
    if units.len() > 0 {
        if let Ok(unit) = units[0] {
            match unit.table() {
                None => lemma_source_addresses_kept(units.drop_first(), wanted, line, before),
                Some(rows) => {
                    lemma_line_rows_kept(rows, wanted, line, before);
                    if let Ok(found) = addresses_of_line(rows, wanted, line, before) {
                        lemma_source_addresses_kept(units.drop_first(), wanted, line, found);
                    }
                },
            }
        }
    }
}

/// Addresses that are all different stay so in one line program.
proof fn lemma_line_rows_kept(
    rows: Seq<Result<RowShape, Seq<char>>>,
    wanted: Seq<char>,
    line: u64,
    before: Seq<u64>,
)
    requires
        before.no_duplicates(),
    ensures
        addresses_of_line(rows, wanted, line, before) matches Ok(found) ==> found.no_duplicates(),
    decreases rows.len(),
{
    if rows.len() > 0 {
        lemma_line_rows_kept(rows.drop_first(), wanted, line, before);
        if let Ok(shape) = rows[0] {
            if !before.contains(shape.row.address) {
                lemma_line_rows_kept(
                    rows.drop_first(),
                    wanted,
                    line,
                    before.push(shape.row.address),
                );
            }
        }
    }
}

/// A source file that is meant by a name is meant by the end of that name too.
proof fn lemma_shorter_name_means(
    file: FileShape,
    path: Seq<char>,
    longer: Seq<char>,
    shorter: Seq<char>,
)
    requires
        path_of(file) == Ok::<Seq<char>, Seq<char>>(path),
        is_meant(file.name->Ok_0, path, longer),
        ends(longer, shorter),
    ensures
        is_meant(file.name->Ok_0, path, shorter),
{
    let name = file.name->Ok_0;
    assert(ends(path, name)) by {
        assert(path.skip(path.len() - name.len()) =~= name);
    }
    assert(ends(path, longer)) by {
        assert(path.skip(0) =~= path);
    }
    assert(path.skip(path.len() - shorter.len()) =~= path.skip(path.len() - longer.len()).skip(
        longer.len() - shorter.len(),
    ));
}

/// Each of the addresses is among the others.
pub open spec fn all_among(found: Seq<u64>, others: Seq<u64>) -> bool {
    forall|i: int| 0 <= i < found.len() ==> others.contains(#[trigger] found[i])
}

/// What is among addresses stays so where both lists may get an address that the others get too.
proof fn lemma_among_pushed(found: Seq<u64>, others: Seq<u64>, addr: u64)
    requires
        all_among(found, others),
    ensures
        all_among(found, others.push(addr)),
        all_among(found.push(addr), others.push(addr)),
        others.contains(addr) ==> all_among(found.push(addr), others),
{
    assert(others.push(addr)[others.len() as int] == addr);
    assert forall|i: int| 0 <= i < found.len() implies others.push(addr).contains(
        #[trigger] found[i],
    ) by {
        let k = choose|k: int| 0 <= k < others.len() && others[k] == found[i];
        assert(others.push(addr)[k] == found[i]);
    }
    assert forall|i: int| 0 <= i < found.push(addr).len() implies others.push(addr).contains(
        #[trigger] found.push(addr)[i],
    ) by {
        if i < found.len() {
            assert(found.push(addr)[i] == found[i]);
        }
    }
    if others.contains(addr) {
        assert forall|i: int| 0 <= i < found.push(addr).len() implies others.contains(
            #[trigger] found.push(addr)[i],
        ) by {
            if i < found.len() {
                assert(found.push(addr)[i] == found[i]);
            }
        }
    }
}

/// The rows of one line program give at least the addresses for a shorter name.
proof fn lemma_rows_of_shorter_name(
    rows: Seq<Result<RowShape, Seq<char>>>,
    longer: Seq<char>,
    shorter: Seq<char>,
    line: u64,
    before: Seq<u64>,
    others: Seq<u64>,
)
    requires
        ends(longer, shorter),
        all_among(before, others),
    ensures
        match (
            addresses_of_line(rows, longer, line, before),
            addresses_of_line(rows, shorter, line, others),
        ) {
            (Ok(found), Ok(more)) => all_among(found, more),
            (Err(e), Err(f)) => e == f,
            _ => false,
        },
    decreases rows.len(),
{
    if rows.len() > 0 {
        if let Ok(shape) = rows[0] {
            let rest = rows.drop_first();
            let addr = shape.row.address;
            match shape.file {
                Some(file) if !shape.row.end_sequence && shape.row.line == Some(line) => {
                    if let Ok(path) = path_of(file) {
                        let name = file.name->Ok_0;
                        if is_meant(name, path, longer) {
                            lemma_shorter_name_means(file, path, longer, shorter);
                        }
                        let next = if is_meant(name, path, longer) && !before.contains(addr) {
                            before.push(addr)
                        } else {
                            before
                        };
                        let wider = if is_meant(name, path, shorter) && !others.contains(addr) {
                            others.push(addr)
                        } else {
                            others
                        };
                        lemma_among_pushed(before, others, addr);
                        lemma_rows_of_shorter_name(rest, longer, shorter, line, next, wider);
                    }
                },
                _ => lemma_rows_of_shorter_name(rest, longer, shorter, line, before, others),
            }
        }
    }
}

/// The same over the rows of all units.
proof fn lemma_units_of_shorter_name(
    units: Seq<Result<UnitShape, Seq<char>>>,
    longer: Seq<char>,
    shorter: Seq<char>,
    line: u64,
    before: Seq<u64>,
    others: Seq<u64>,
)
    requires
        ends(longer, shorter),
        all_among(before, others),
    ensures
        match (
            source_addresses(units, longer, line, before),
            source_addresses(units, shorter, line, others),
        ) {
            (Ok(found), Ok(more)) => all_among(found, more),
            (Err(e), Err(f)) => e == f,
            _ => false,
        },
    decreases units.len(),
{
    if units.len() > 0 {
        if let Ok(unit) = units[0] {
            let rest = units.drop_first();
            match unit.table() {
                None => lemma_units_of_shorter_name(rest, longer, shorter, line, before, others),
                Some(rows) => {
                    lemma_rows_of_shorter_name(rows, longer, shorter, line, before, others);
                    if let Ok(found) = addresses_of_line(rows, longer, line, before) {
                        let more = addresses_of_line(rows, shorter, line, others)->Ok_0;
                        lemma_units_of_shorter_name(rest, longer, shorter, line, found, more);
                    }
                },
            }
        }
    }
}

/// The end of a file name finds at least the addresses that the whole name finds, and fails
/// where that does.
pub proof fn lemma_shorter_name_finds_more(
    units: Seq<Result<UnitShape, Seq<char>>>,
    longer: Seq<char>,
    shorter: Seq<char>,
    line: u64,
)
    requires
        ends(longer, shorter),
    ensures
        match (
            source_addresses(units, longer, line, Seq::empty()),
            source_addresses(units, shorter, line, Seq::empty()),
        ) {
            (Ok(found), Ok(more)) => all_among(found, more),
            (Err(e), Err(f)) => e == f,
            _ => false,
        },
{
    lemma_units_of_shorter_name(units, longer, shorter, line, Seq::empty(), Seq::empty());
}

/// The ranges given for an address hold that address.
pub proof fn lemma_function_ranges_cover(units: Seq<Result<UnitShape, Seq<char>>>, pc: u64)
    ensures
        function_ranges_at(units, pc) matches Ok(Some(ranges)) ==> covered(ranges, pc),
    decreases units.len(),
{
    if units.len() > 0 {
        if let Ok(unit) = units[0] {
            lemma_ranges_in_cover(unit, unit.entries, pc);
            lemma_function_ranges_cover(units.drop_first(), pc);
        }
    }
}

/// The ranges given for an address by one unit hold that address.
proof fn lemma_ranges_in_cover(
    unit: UnitShape,
    entries: Seq<Result<Entry, Seq<char>>>,
    pc: u64,
)
    ensures
        ranges_in(unit, entries, pc) matches Ok(Some(ranges)) ==> covered(ranges, pc),
    decreases entries.len(),
{
    if entries.len() > 0 {
        lemma_ranges_in_cover(unit, entries.drop_first(), pc);
    }
}

/// Where a function with a name is found, so are ranges: a program counter that is in a named
/// function is in the ranges of a function.
pub proof fn lemma_named_function_has_ranges(units: Seq<Result<UnitShape, Seq<char>>>, pc: u64)
    requires
        function_at(units, pc) matches Ok(Some(_)),
    ensures
        function_ranges_at(units, pc) matches Ok(Some(_)),
    decreases units.len(),
{
    if let Ok(unit) = units[0] {
        lemma_named_in_unit(unit, unit.entries, pc);
        if function_in(unit, unit.entries, pc) == Ok::<Option<Seq<char>>, Seq<char>>(None) {
            if ranges_in(unit, unit.entries, pc) == Ok::<Option<Seq<(u64, u64)>>, Seq<char>>(None) {
                lemma_named_function_has_ranges(units.drop_first(), pc);
            }
        }
    }
}

/// Looking for ranges in a unit fails only where looking for a name does, and finds something
/// wherever that does.
proof fn lemma_named_in_unit(unit: UnitShape, entries: Seq<Result<Entry, Seq<char>>>, pc: u64)
    ensures
        function_in(unit, entries, pc) is Ok ==> ranges_in(unit, entries, pc) is Ok,
        function_in(unit, entries, pc) matches Ok(Some(_)) ==> (ranges_in(unit, entries, pc) matches Ok(
            Some(_),
        )),
    decreases entries.len(),
{
    if entries.len() > 0 {
        lemma_named_in_unit(unit, entries.drop_first(), pc);
    }
}

} // verus!
