//! The debugging information of a program file, as the `object` and `gimli` crates read it.
//!
//! [`DwarfImage`] holds the DWARF sections of a program. What they say is modelled as a list
//! of units, [`UnitShape`]: each with its debugging entries in depth-first order, its range
//! lists, and the rows of its line program. Everything that decodes DWARF is done by `gimli`;
//! the functions here that are marked as trusted hand its results out as plain values.
use std::string::ToString;
use vstd::prelude::*;

use gimli::{
    AttributeValue, DwAt, EndianSlice, Format, LineInstruction, RangeListsOffset, Reader,
    RunTimeEndian, Section as GimliSection, UnitOffset,
};
use object::{Object, ObjectSection};

use crate::range_table::{RangeTable, TableShape};
use crate::target::TargetError;
use crate::text::same;

verus! {

// ---------------------------------------------------------------------------
// Numbers that DWARF assigns

pub const TAG_COMPILE_UNIT: u16 = 0x11;

pub const TAG_SUBPROGRAM: u16 = 0x2e;

pub const AT_NAME: u16 = 0x03;

pub const AT_LOW_PC: u16 = 0x11;

pub const AT_HIGH_PC: u16 = 0x12;

pub const AT_RANGES: u16 = 0x55;

// ---------------------------------------------------------------------------
// Texts that may be missing

/// A text or the wording of an error, as character sequences.
pub open spec fn text_or_fault(r: Result<String, String>) -> Result<Seq<char>, Seq<char>> {
    match r {
        Ok(s) => Ok(s@),
        Err(e) => Err(e@),
    }
}

/// An optional text or the wording of an error, as character sequences.
pub open spec fn opt_text_or_fault(r: Option<Result<String, String>>) -> Option<
    Result<Seq<char>, Seq<char>>,
> {
    match r {
        Some(t) => Some(text_or_fault(t)),
        None => None,
    }
}

// ---------------------------------------------------------------------------
// The sections of a program file

/// One section: its name and its bytes.
#[derive(Debug)]
pub struct Section {
    pub name: String,
    pub data: Vec<u8>,
}

/// The byte order of a program and its DWARF sections.
#[derive(Debug)]
pub struct DwarfImage {
    pub little_endian: bool,
    pub sections: Vec<Section>,
}

/// Sections as pairs of a name and bytes.
pub open spec fn section_pairs(v: Seq<Section>) -> Seq<(Seq<char>, Seq<u8>)> {
    Seq::new(v.len(), |i: int| (v[i].name@, v[i].data@))
}

/// A byte order and sections.
#[verifier::ext_equal]
pub struct ImageShape {
    pub little_endian: bool,
    pub sections: Seq<(Seq<char>, Seq<u8>)>,
}

impl View for DwarfImage {
    type V = ImageShape;

    open spec fn view(&self) -> ImageShape {
        ImageShape {
            little_endian: self.little_endian,
            sections: section_pairs(self.sections@),
        }
    }
}

/// The bytes of the first section with the given name; none where there is no such section.
pub open spec fn section_of(sections: Seq<(Seq<char>, Seq<u8>)>, name: Seq<char>) -> Seq<u8>
    decreases sections.len(),
{
    if sections.len() == 0 {
        Seq::empty()
    } else if sections[0].0 == name {
        sections[0].1
    } else {
        section_of(sections.drop_first(), name)
    }
}

impl DwarfImage {
    /// The bytes of the first section with the given name; none where there is no such section.
    pub fn section(&self, name: &str) -> (r: &[u8])
        ensures
            r@ == section_of(self@.sections, name@),
    {
        let ghost pairs = self@.sections;
        assert(pairs.skip(0) =~= pairs);
        for i in 0..self.sections.len()
            invariant
                pairs == section_pairs(self.sections@),
                section_of(pairs, name@) == section_of(pairs.skip(i as int), name@),
        {
            assert(pairs.skip(i as int)[0] == pairs[i as int]);
            assert(pairs.skip(i as int).drop_first() =~= pairs.skip(i + 1));
            if same(self.sections[i].name.as_str(), name) {
                return self.sections[i].data.as_slice();
            }
        }
        assert(pairs.skip(self.sections@.len() as int).len() == 0);
        let none: &[u8] = &[];
        assert(none@ =~= Seq::<u8>::empty());
        none
    }
}

// ---------------------------------------------------------------------------
// Reading the program file

/// What `object` says of the byte order of a program file: whether it is little-endian, or why
/// the file is not a program.
pub uninterp spec fn file_is_little_endian(bytes: Seq<u8>) -> Result<bool, Seq<char>>;

/// What `object` reads as the bytes of a section of a program file, without compression: none
/// where the file has no such section, or the wording of an error.
pub uninterp spec fn file_section(bytes: Seq<u8>, name: Seq<char>) -> Result<
    Option<Seq<u8>>,
    Seq<char>,
>;

/// `object::File::parse` and `is_little_endian`. What makes bytes a program is left to that
/// crate: the result is named as a function of the bytes, an error by its wording.
#[verifier::external_body]
pub(crate) fn parse_endian(bytes: &[u8]) -> (r: Result<bool, String>)
    ensures
        match file_is_little_endian(bytes@) {
            Ok(little) => r matches Ok(x) && x == little,
            Err(e) => r matches Err(x) && x@ == e,
        },
{
    object::File::parse(bytes).map(|file| file.is_little_endian()).map_err(|e| e.to_string())
}

/// `object::File::parse`, `section_by_name` and `uncompressed_data`. The result is named as a
/// function of the file's bytes and the section's name, an error by its wording.
#[verifier::external_body]
pub(crate) fn parse_section(bytes: &[u8], name: &str) -> (r: Result<Option<Vec<u8>>, String>)
    ensures
        match file_section(bytes@, name@) {
            Ok(Some(data)) => r matches Ok(Some(v)) && v@ == data,
            Ok(None) => r matches Ok(None),
            Err(e) => r matches Err(x) && x@ == e,
        },
{
    let file = object::File::parse(bytes).map_err(|e| e.to_string())?;
    match file.section_by_name(name) {
        Some(section) => section.uncompressed_data().map(|data| Some(data.into_owned())).map_err(
            |e| e.to_string(),
        ),
        None => Ok(None),
    }
}

/// The names of the DWARF sections, in the order in which they are loaded.
pub open spec fn section_names() -> Seq<Seq<char>> {
    seq![
        ".debug_abbrev"@,
        ".debug_addr"@,
        ".debug_aranges"@,
        ".debug_info"@,
        ".debug_line"@,
        ".debug_line_str"@,
        ".debug_macinfo"@,
        ".debug_macro"@,
        ".debug_names"@,
        ".debug_str"@,
        ".debug_str_offsets"@,
        ".debug_types"@,
        ".debug_loc"@,
        ".debug_loclists"@,
        ".debug_ranges"@,
        ".debug_rnglists"@,
    ]
}

/// The names of the DWARF sections, in the order in which they are loaded.
fn dwarf_section_names() -> (r: Vec<&'static str>)
    ensures
        r@.len() == section_names().len(),
        forall|i: int| 0 <= i < r@.len() ==> #[trigger] r@[i]@ == section_names()[i],
{
    let mut names: Vec<&'static str> = Vec::new();
    names.push(".debug_abbrev");
    names.push(".debug_addr");
    names.push(".debug_aranges");
    names.push(".debug_info");
    names.push(".debug_line");
    names.push(".debug_line_str");
    names.push(".debug_macinfo");
    names.push(".debug_macro");
    names.push(".debug_names");
    names.push(".debug_str");
    names.push(".debug_str_offsets");
    names.push(".debug_types");
    names.push(".debug_loc");
    names.push(".debug_loclists");
    names.push(".debug_ranges");
    names.push(".debug_rnglists");
    names
}

/// The sections of the given names that a file has, each with its name, or the first error.
/// A section that the file does not have is empty.
pub open spec fn load_sections(bytes: Seq<u8>, names: Seq<Seq<char>>) -> Result<
    Seq<(Seq<char>, Seq<u8>)>,
    Seq<char>,
>
    decreases names.len(),
{
    if names.len() == 0 {
        Ok(Seq::empty())
    } else {
        match load_sections(bytes, names.drop_last()) {
            Err(e) => Err(e),
            Ok(before) => match file_section(bytes, names.last()) {
                Err(e) => Err(e),
                Ok(Some(data)) => Ok(before.push((names.last(), data))),
                Ok(None) => Ok(before.push((names.last(), Seq::empty()))),
            },
        }
    }
}

/// Once a name cannot be loaded, longer lists of names cannot be either.
proof fn lemma_load_fails(bytes: Seq<u8>, names: Seq<Seq<char>>, k: int)
    requires
        0 <= k <= names.len(),
        load_sections(bytes, names.take(k)) is Err,
    ensures
        load_sections(bytes, names) == load_sections(bytes, names.take(k)),
    decreases names.len() - k,
{
    if k < names.len() {
        assert(names.take(k + 1).drop_last() =~= names.take(k));
        lemma_load_fails(bytes, names, k + 1);
    } else {
        assert(names.take(k) =~= names);
    }
}

/// The DWARF sections of a program file, or why there are none.
pub open spec fn image_of(bytes: Seq<u8>) -> Result<ImageShape, Seq<Seq<char>>> {
    match file_is_little_endian(bytes) {
        Err(e) => Err(seq!["parse object file"@, e]),
        Ok(little_endian) => match load_sections(bytes, section_names()) {
            Err(e) => Err(seq![e]),
            Ok(sections) => Ok(ImageShape { little_endian, sections }),
        },
    }
}

impl DwarfImage {
    /// Reads the DWARF sections of a program file.
    pub fn load(bytes: &[u8]) -> (r: Result<DwarfImage, TargetError>)
        ensures
            match image_of(bytes@) {
                Ok(image) => r matches Ok(x) && x@ == image,
                Err(e) => r matches Err(x) && x@ == e,
            },
    {
        let little_endian = match parse_endian(bytes) {
            Ok(little) => little,
            Err(e) => {
                let fault = TargetError::new(e).context("parse object file".to_owned());
                assert(fault@ =~= seq!["parse object file"@, e@]);
                return Err(fault);
            },
        };
        let names = dwarf_section_names();
        let ghost wanted = section_names();
        let mut sections: Vec<Section> = Vec::new();
        assert(section_pairs(sections@) =~= Seq::<(Seq<char>, Seq<u8>)>::empty());
        assert(wanted.take(0).len() == 0);
        for i in 0..names.len()
            invariant
                wanted == section_names(),
                names@.len() == wanted.len(),
                forall|i: int| 0 <= i < names@.len() ==> #[trigger] names@[i]@ == wanted[i],
                file_is_little_endian(bytes@) == Ok::<bool, Seq<char>>(little_endian),
                load_sections(bytes@, wanted.take(i as int)) == Ok::<
                    Seq<(Seq<char>, Seq<u8>)>,
                    Seq<char>,
                >(section_pairs(sections@)),
        {
            let name: &str = names[i];
            assert(name@ == wanted[i as int]);
            assert(wanted.take(i + 1).drop_last() =~= wanted.take(i as int));
            assert(wanted.take(i + 1).last() == name@);
            let data: Vec<u8> = match parse_section(bytes, name) {
                Ok(Some(data)) => data,
                Ok(None) => Vec::new(),
                Err(e) => {
                    proof {
                        lemma_load_fails(bytes@, wanted, i + 1);
                    }
                    return Err(TargetError::new(e));
                },
            };
            let ghost before = sections@;
            sections.push(Section { name: name.to_owned(), data });
            assert(section_pairs(sections@) =~= section_pairs(before).push((name@, data@)));
        }
        assert(wanted.take(wanted.len() as int) =~= wanted);
        Ok(DwarfImage { little_endian, sections })
    }
}

// ---------------------------------------------------------------------------
// What the sections say

/// The value of an attribute, as far as code addresses are concerned.
#[derive(Clone, Copy, Debug, PartialEq, Eq, Structural)]
pub enum Attr {
    /// The entry does not have the attribute.
    Missing,
    Addr(u64),
    Udata(u64),
    /// An offset of a range list.
    RangeList(u64),
    /// The number of a range list in the unit's table of offsets.
    RangeIndex(u64),
    /// Any other value.
    Other,
}

/// A debugging entry: its offset in the unit and its tag.
#[derive(Clone, Copy, Debug, PartialEq, Eq, Structural)]
pub struct Entry {
    pub offset: u64,
    pub tag: u16,
}

/// A source file of a line program. The file's own name and its directory's name may not be
/// readable.
#[derive(Debug)]
pub struct LineFile {
    pub name: Result<String, String>,
    pub directory_index: u64,
    pub directory: Option<Result<String, String>>,
}

/// A row of a line program.
#[derive(Clone, Copy, Debug, PartialEq, Eq, Structural)]
pub struct LineRow {
    pub address: u64,
    pub end_sequence: bool,
    /// The source line, where the row has one.
    pub line: Option<u64>,
}

/// A source file of a line program, as mathematical values.
pub struct FileShape {
    pub name: Result<Seq<char>, Seq<char>>,
    pub directory_index: u64,
    pub directory: Option<Result<Seq<char>, Seq<char>>>,
}

impl View for LineFile {
    type V = FileShape;

    open spec fn view(&self) -> FileShape {
        FileShape {
            name: text_or_fault(self.name),
            directory_index: self.directory_index,
            directory: opt_text_or_fault(self.directory),
        }
    }
}

/// A row of a line program and its source file, where the file table has one for it.
pub struct RowShape {
    pub row: LineRow,
    pub file: Option<FileShape>,
}

/// A unit. A list that ends in an error could not be read on from there.
pub struct UnitShape {
    /// The entries in depth-first order.
    pub entries: Seq<Result<Entry, Seq<char>>>,
    /// The value of each attribute of each entry.
    pub attrs: Map<(u64, u16), Attr>,
    /// The text of each attribute of each entry.
    pub attr_texts: Map<(u64, u16), Option<Result<Seq<char>, Seq<char>>>>,
    /// The table that gives the offset of each range list by its number.
    pub range_table: TableShape,
    /// The range list at each offset: first addresses and the addresses past the last; none
    /// where a range could not be read.
    pub range_lists: Map<u64, Option<Seq<Option<(u64, u64)>>>>,
    /// The instructions of the line program up to the first that cannot be read: by how much
    /// each advances the line, where it does so.
    pub advances: Seq<Option<i64>>,
    /// The rows of the line program, where the unit has one. They are known only where every
    /// advance can be run.
    pub rows: Option<Seq<Result<RowShape, Seq<char>>>>,
}

impl UnitShape {
    /// Every instruction of the line program can be run: none takes so many lines back that
    /// their count is not a number of 64 bits with a sign.
    pub open spec fn can_run(self) -> bool {
        forall|i: int| 0 <= i < self.advances.len() ==> #[trigger] self.advances[i] != Some(
            i64::MIN,
        )
    }

    /// The rows of the line program, where the unit has one; a fault in place of the rows of a
    /// program that cannot be run.
    pub open spec fn table(self) -> Option<Seq<Result<RowShape, Seq<char>>>> {
        if self.can_run() {
            self.rows
        } else {
            Some(seq![Err("Line advance is out of range"@)])
        }
    }
}

/// What `gimli` reads from DWARF sections: the units in order. One whose header or contents
/// cannot be read stands as the wording of the error.
pub uninterp spec fn units_of(little_endian: bool, sections: Seq<(Seq<char>, Seq<u8>)>) -> Seq<
    Result<UnitShape, Seq<char>>,
>;

/// What an open unit holds.
pub uninterp spec fn unit_in(unit: OpenUnit) -> UnitShape;

/// The entries that a walk has yet to come to.
pub uninterp spec fn entries_left(cursor: EntryCursor) -> Seq<Result<Entry, Seq<char>>>;

/// The instructions of a line program that were not read yet: by how much each advances the
/// line, where it does so.
pub uninterp spec fn advances_left(steps: LineSteps) -> Seq<Option<i64>>;

/// The rows that a line program has yet to hand out.
pub uninterp spec fn rows_left(rows: LineRows) -> Seq<Result<RowShape, Seq<char>>>;

/// The row that a line program has handed out last.
pub uninterp spec fn row_now(rows: LineRows) -> RowShape;

/// A unit as `gimli` holds it.
#[verifier::external_body]
pub struct OpenUnit<'a> {
    dwarf: gimli::Dwarf<EndianSlice<'a, RunTimeEndian>>,
    unit: gimli::Unit<EndianSlice<'a, RunTimeEndian>>,
}

/// A walk of `gimli` through the entries of a unit.
#[verifier::external_body]
pub struct EntryCursor<'u, 'a> {
    cursor: gimli::EntriesCursor<'u, EndianSlice<'a, RunTimeEndian>>,
}

/// The instructions of a line program, as `gimli` reads them.
#[verifier::external_body]
pub struct LineSteps<'u, 'a> {
    header: &'u gimli::LineProgramHeader<EndianSlice<'a, RunTimeEndian>, usize>,
    steps: gimli::LineInstructions<EndianSlice<'a, RunTimeEndian>>,
}

/// A line program that `gimli` runs.
#[verifier::external_body]
pub struct LineRows<'u, 'a> {
    unit: &'u OpenUnit<'a>,
    rows: gimli::LineRows<
        EndianSlice<'a, RunTimeEndian>,
        gimli::IncompleteLineProgram<EndianSlice<'a, RunTimeEndian>, usize>,
        usize,
    >,
    file: u64,
}

/// `gimli::Dwarf::units` and `gimli::Dwarf::unit`: the unit of the given number, none past the
/// last one. What the units are is named as a function of the byte order and the sections; the
/// table of a unit's range lists stands in the section `.debug_rnglists`, in that byte order. Each
/// unit takes up bytes of a section, so its number is less than what `usize` can count to.
#[verifier::external_body]
pub(crate) fn open_unit<'a>(image: &'a DwarfImage, number: usize) -> (r: Result<
    Option<OpenUnit<'a>>,
    String,
>)
    ensures
        ({
            let units = units_of(image@.little_endian, image@.sections);
            if number < units.len() {
                match units[number as int] {
                    Ok(shape) => r matches Ok(Some(u)) && unit_in(u) == shape,
                    Err(e) => r matches Err(x) && x@ == e,
                }
            } else {
                r matches Ok(None)
            }
        }),
        r matches Ok(Some(u)) ==> {
            &&& unit_in(u).range_table.little_endian == image@.little_endian
            &&& unit_in(u).range_table.data == section_of(image@.sections, ".debug_rnglists"@)
        },
        (r matches Ok(Some(_))) ==> number < usize::MAX,
{
    let endian = if image.little_endian { RunTimeEndian::Little } else { RunTimeEndian::Big };
    let dwarf = gimli::Dwarf::load(
        |id| Ok::<_, gimli::Error>(EndianSlice::new(image.section(id.name()), endian)),
    ).map_err(|e| e.to_string())?;
    let Some(header) = dwarf.units().nth(number) else {
        return Ok(None);
    };
    let unit = header.and_then(|header| dwarf.unit(header)).map_err(|e| e.to_string())?;
    Ok(Some(OpenUnit { dwarf, unit }))
}

/// Entries and errors, as mathematical values.
pub open spec fn entry_results(v: Seq<Result<Entry, String>>) -> Seq<Result<Entry, Seq<char>>> {
    Seq::new(
        v.len(),
        |i: int|
            match v[i] {
                Ok(e) => Ok(e),
                Err(x) => Err(x@),
            },
    )
}

/// `gimli::Unit::entries`: a walk that has not started.
#[verifier::external_body]
pub(crate) fn entry_cursor<'u, 'a>(unit: &'u OpenUnit<'a>) -> (r: EntryCursor<'u, 'a>)
    ensures
        entries_left(r) == unit_in(*unit).entries,
{
    EntryCursor { cursor: unit.unit.entries() }
}

/// `gimli::EntriesCursor::next_dfs`: the offset and tag of the next entry in depth-first order,
/// none after the last one. Where an entry cannot be read the walk is over.
#[verifier::external_body]
pub(crate) fn next_entry(cursor: &mut EntryCursor) -> (r: Result<Option<Entry>, String>)
    ensures
        entries_left(*old(cursor)).len() == 0 ==> (r matches Ok(None)),
        entries_left(*old(cursor)).len() > 0 ==> match entries_left(*old(cursor))[0] {
            Ok(entry) => {
                &&& r matches Ok(Some(x)) && x == entry
                &&& entries_left(*final(cursor)) == entries_left(*old(cursor)).drop_first()
            },
            Err(e) => {
                &&& r matches Err(x) && x@ == e
                &&& entries_left(*old(cursor)).len() == 1
            },
        },
{
    match cursor.cursor.next_dfs() {
        Ok(None) => Ok(None),
        Ok(Some(e)) => Ok(Some(Entry { offset: e.offset().0 as u64, tag: e.tag().0 })),
        Err(e) => Err(e.to_string()),
    }
}

/// The entries of a unit in depth-first order, up to the first that cannot be read.
pub(crate) fn unit_entries(unit: &OpenUnit) -> (r: Vec<Result<Entry, String>>)
    ensures
        entry_results(r@) == unit_in(*unit).entries,
{
    let mut cursor = entry_cursor(unit);
    let mut entries: Vec<Result<Entry, String>> = Vec::new();
    let ghost all = unit_in(*unit).entries;
    assert(entry_results(entries@) + entries_left(cursor) =~= all);
    loop
        invariant
            all == unit_in(*unit).entries,
            entry_results(entries@) + entries_left(cursor) == all,
        decreases entries_left(cursor).len(),
    {
        let ghost before = entry_results(entries@);
        let ghost left = entries_left(cursor);
        match next_entry(&mut cursor) {
            Ok(None) => {
                assert(before + left =~= before);
                return entries;
            },
            Ok(Some(entry)) => {
                entries.push(Ok(entry));
                assert(entry_results(entries@) =~= before.push(left[0]));
                assert(before.push(left[0]) + left.drop_first() =~= before + left);
            },
            Err(e) => {
                entries.push(Err(e));
                assert(entry_results(entries@) =~= before + left);
                return entries;
            },
        }
    }
}

/// `gimli::Unit::entry` and `gimli::DebuggingInformationEntry::attr_value`: the value of an
/// attribute of the entry at an offset.
#[verifier::external_body]
pub(crate) fn entry_attr(unit: &OpenUnit, offset: u64, name: u16) -> (r: Attr)
    ensures
        r == unit_in(*unit).attrs[(offset, name)],
{
    let entry = unit.unit.entry(UnitOffset(offset as usize)).ok();
    match entry.and_then(|entry| entry.attr_value(DwAt(name))) {
        None => Attr::Missing,
        Some(AttributeValue::Addr(address)) => Attr::Addr(address),
        Some(AttributeValue::Udata(value)) => Attr::Udata(value),
        Some(AttributeValue::RangeListsRef(offset)) => Attr::RangeList(offset.0 as u64),
        Some(AttributeValue::DebugRngListsIndex(index)) => Attr::RangeIndex(index.0 as u64),
        Some(_) => Attr::Other,
    }
}

/// `gimli::Unit::entry`, `gimli::DebuggingInformationEntry::attr` and
/// `gimli::Dwarf::attr_string`: the text of an attribute of the entry at an offset, where the
/// entry has the attribute, or the wording of an error.
#[verifier::external_body]
pub(crate) fn entry_text(unit: &OpenUnit, offset: u64, name: u16) -> (r: Option<
    Result<String, String>,
>)
    ensures
        opt_text_or_fault(r) == unit_in(*unit).attr_texts[(offset, name)],
{
    let entry = unit.unit.entry(UnitOffset(offset as usize)).ok()?;
    let value = entry.attr(DwAt(name))?.value();
    let text = unit.dwarf.attr_string(&unit.unit, value);
    Some(text.map(|s| s.to_string_lossy().into_owned()).map_err(|e| e.to_string()))
}

/// `gimli::Unit::rnglists_base`, `gimli::Unit::encoding` and the bytes of `gimli::DebugRngLists`:
/// the table that gives the offsets of the unit's range lists.
#[verifier::external_body]
pub(crate) fn range_table<'u, 'a>(unit: &'u OpenUnit<'a>) -> (r: RangeTable<'a>)
    ensures
        r@ == unit_in(*unit).range_table,
{
    let section = unit.dwarf.ranges.debug_rnglists().reader();
    let little_endian = match section.endian() {
        RunTimeEndian::Little => true,
        RunTimeEndian::Big => false,
    };
    let wide = match unit.unit.encoding().format {
        Format::Dwarf32 => false,
        Format::Dwarf64 => true,
    };
    let base = unit.unit.rnglists_base.0 as u64;
    RangeTable { data: section.slice(), little_endian, base, wide }
}

/// The ranges of a list, as a mathematical value.
pub open spec fn opt_ranges(r: Option<Vec<Option<(u64, u64)>>>) -> Option<
    Seq<Option<(u64, u64)>>,
> {
    match r {
        Some(v) => Some(v@),
        None => None,
    }
}

/// `gimli::Dwarf::ranges`: the ranges of the list at an offset in order, each that cannot be read
/// as none; none where the list as a whole cannot be read.
#[verifier::external_body]
pub(crate) fn range_list(unit: &OpenUnit, offset: u64) -> (r: Option<Vec<Option<(u64, u64)>>>)
    ensures
        opt_ranges(r) == unit_in(*unit).range_lists[offset],
{
    let ranges = unit.dwarf.ranges(&unit.unit, RangeListsOffset(offset as usize)).ok()?;
    Some(ranges.map(|range| range.ok().map(|range| (range.begin, range.end))).collect())
}

/// `gimli::LineProgramHeader::instructions` for the line program of a `gimli::Unit`; none where
/// the unit has no line program.
#[verifier::external_body]
pub(crate) fn line_steps<'u, 'a>(unit: &'u OpenUnit<'a>) -> (r: Option<LineSteps<'u, 'a>>)
    ensures
        match r {
            Some(steps) => advances_left(steps) == unit_in(*unit).advances,
            None => unit_in(*unit).advances.len() == 0,
        },
{
    let header = unit.unit.line_program.as_ref()?.header();
    Some(LineSteps { header, steps: header.instructions() })
}

/// `gimli::LineInstructions::next_instruction`: by how much the next instruction advances the
/// line, where it does so; none after the last instruction and where one cannot be read.
#[verifier::external_body]
pub(crate) fn next_step(steps: &mut LineSteps) -> (r: Option<Option<i64>>)
    ensures
        advances_left(*old(steps)).len() == 0 ==> r is None,
        advances_left(*old(steps)).len() > 0 ==> {
            &&& r == Some(advances_left(*old(steps))[0])
            &&& advances_left(*final(steps)) == advances_left(*old(steps)).drop_first()
        },
{
    match steps.steps.next_instruction(steps.header) {
        Ok(Some(LineInstruction::AdvanceLine(by))) => Some(Some(by)),
        Ok(Some(_)) => Some(None),
        Ok(None) => None,
        Err(_) => None,
    }
}

/// Whether every instruction of a unit's line program can be run.
pub(crate) fn line_program_can_run(unit: &OpenUnit) -> (r: bool)
    ensures
        r == unit_in(*unit).can_run(),
{
    let ghost all = unit_in(*unit).advances;
    let mut steps = match line_steps(unit) {
        Some(steps) => steps,
        None => {
            return true;
        },
    };
    let ghost mut read: int = 0;
    assert(all.skip(0) =~= all);
    loop
        invariant
            all == unit_in(*unit).advances,
            0 <= read <= all.len(),
            advances_left(steps) == all.skip(read),
            forall|i: int| 0 <= i < read ==> #[trigger] all[i] != Some(i64::MIN),
        decreases all.len() - read,
    {
        match next_step(&mut steps) {
            None => {
                return true;
            },
            Some(by) => {
                assert(all.skip(read)[0] == all[read]);
                if let Some(by) = by {
                    if by == i64::MIN {
                        return false;
                    }
                }
                assert(all.skip(read).drop_first() =~= all.skip(read + 1));
                proof {
                    read = read + 1;
                }
            },
        }
    }
}

/// The line program of a `gimli::Unit`, ready to hand out its first row; none where the unit
/// has no line program. `gimli` counts the lines that an instruction goes back by negating a
/// number of 64 bits with a sign, so the least such number is left out.
#[verifier::external_body]
pub(crate) fn line_rows<'u, 'a>(unit: &'u OpenUnit<'a>) -> (r: Option<LineRows<'u, 'a>>)
    requires
        unit_in(*unit).can_run(),
    ensures
        match unit_in(*unit).rows {
            Some(rows) => r matches Some(x) && rows_left(x) == rows,
            None => r is None,
        },
{
    let program = unit.unit.line_program.clone()?;
    Some(LineRows { unit, rows: program.rows(), file: 0 })
}

/// `gimli::LineRows::next_row`: the next row, none after the last one. A row that belongs to no
/// source line has none: lines are numbered from one.
#[verifier::external_body]
pub(crate) fn next_row(rows: &mut LineRows) -> (r: Result<Option<LineRow>, String>)
    ensures
        rows_left(*old(rows)).len() == 0 ==> (r matches Ok(None)),
        rows_left(*old(rows)).len() > 0 ==> match rows_left(*old(rows))[0] {
            Ok(shape) => {
                &&& r matches Ok(Some(x)) && x == shape.row
                &&& row_now(*final(rows)) == shape
                &&& rows_left(*final(rows)) == rows_left(*old(rows)).drop_first()
            },
            Err(e) => r matches Err(x) && x@ == e,
        },
        (r matches Ok(Some(x))) ==> (r->Ok_0->Some_0).line != Some(0u64),
{
    match rows.rows.next_row() {
        Ok(None) => Ok(None),
        Ok(Some((_, row))) => {
            rows.file = row.file_index();
            let line = row.line().map(|line| line.get());
            let end_sequence = row.end_sequence();
            Ok(Some(LineRow { address: row.address(), end_sequence, line }))
        },
        Err(e) => Err(e.to_string()),
    }
}

/// The rows of a unit's line program, ready to hand out the first; none where the unit has no
/// line program, and a fault where the program cannot be run.
pub(crate) fn unit_rows<'u, 'a>(unit: &'u OpenUnit<'a>) -> (r: Result<
    Option<LineRows<'u, 'a>>,
    String,
>)
    ensures
        match r {
            Ok(Some(rows)) => unit_in(*unit).table() == Some(rows_left(rows)),
            Ok(None) => unit_in(*unit).table() is None,
            Err(e) => unit_in(*unit).table() == Some(
                seq![Err::<RowShape, Seq<char>>(e@)],
            ),
        },
{
    if line_program_can_run(unit) {
        Ok(line_rows(unit))
    } else {
        Err("Line advance is out of range".to_owned())
    }
}

/// An optional file, as a mathematical value.
pub open spec fn opt_file(f: Option<LineFile>) -> Option<FileShape> {
    match f {
        Some(file) => Some(file@),
        None => None,
    }
}

/// `gimli::LineProgramHeader::file` and `directory` for the row handed out last, with their
/// texts by `gimli::Dwarf::attr_string`.
#[verifier::external_body]
pub(crate) fn row_file(rows: &LineRows) -> (r: Option<LineFile>)
    ensures
        opt_file(r) == row_now(*rows).file,
{
    let unit = &rows.unit.unit;
    let dwarf = &rows.unit.dwarf;
    let text = |value: AttributeValue<EndianSlice<RunTimeEndian>>| dwarf.attr_string(unit, value)
        .map(|s| s.to_string_lossy().into_owned()).map_err(|e| e.to_string());
    let header = rows.rows.header();
    let file = header.file(rows.file)?;
    let directory_index = file.directory_index();
    let directory = header.directory(directory_index).map(text);
    Some(LineFile { name: text(file.path_name()), directory_index, directory })
}

// ---------------------------------------------------------------------------
// Sections

/// Every name has its section: the bytes that the file has for it, or none.
proof fn lemma_sections(bytes: Seq<u8>, names: Seq<Seq<char>>)
    ensures
        load_sections(bytes, names) matches Ok(all) ==> {
            &&& all.len() == names.len()
            &&& forall|i: int|
                0 <= i < names.len() ==> {
                    &&& (#[trigger] all[i]).0 == names[i]
                    &&& file_section(bytes, names[i]) is Ok
                    &&& all[i].1 == match file_section(bytes, names[i])->Ok_0 {
                        Some(data) => data,
                        None => Seq::empty(),
                    }
                }
        },
    decreases names.len(),
{
    if names.len() > 0 {
        lemma_sections(bytes, names.drop_last());
    }
}

/// A section is found by its name among those of other names.
proof fn lemma_section_found(sections: Seq<(Seq<char>, Seq<u8>)>, i: int)
    requires
        0 <= i < sections.len(),
        forall|j: int| 0 <= j < i ==> (#[trigger] sections[j]).0 != sections[i].0,
    ensures
        section_of(sections, sections[i].0) == sections[i].1,
    decreases i,
{
    if i > 0 {
        let rest = sections.drop_first();
        assert(sections[0].0 != sections[i].0);
        assert forall|j: int| 0 <= j < i - 1 implies (#[trigger] rest[j]).0 != rest[i - 1].0 by {
            assert(rest[j] == sections[j + 1]);
        }
        lemma_section_found(rest, i - 1);
    }
}

/// A loaded file has under each name the section that the file has, or an empty one.
pub proof fn lemma_file_is_loaded(bytes: Seq<u8>, image: ImageShape, i: int)
    requires
        image_of(bytes) == Ok::<ImageShape, Seq<Seq<char>>>(image),
        0 <= i < section_names().len(),
        forall|j: int| 0 <= j < i ==> #[trigger] section_names()[j] != section_names()[i],
    ensures
        file_is_little_endian(bytes) == Ok::<bool, Seq<char>>(image.little_endian),
        file_section(bytes, section_names()[i]) matches Ok(data) && section_of(
            image.sections,
            section_names()[i],
        ) == match data {
            Some(data) => data,
            None => Seq::empty(),
        },
{
    lemma_sections(bytes, section_names());
    assert(image.sections[i].0 == section_names()[i]);
    assert forall|j: int| 0 <= j < i implies (#[trigger] image.sections[j]).0
        != image.sections[i].0 by {
        assert(section_names()[j] != section_names()[i]);
    }
    lemma_section_found(image.sections, i);
}

} // verus!
