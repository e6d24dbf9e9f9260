use vstd::prelude::*;
use std::collections::{BTreeMap, HashMap};

use crate::binary_reader::{
    i32_as_u64, i32_to_u64, lemma_repeat_err, pmap, repeat, spec_consume, spec_new_string,
    spec_read_bytes, spec_read_i32, spec_read_u16, spec_read_u32, spec_read_u8, spec_take,
    u32_to_i32, twos, BinaryReader, PResult, ReaderView,
};
use crate::error::{Malformed, ParseError};
use crate::sections::symbols::{offset_of, offsets_map, spec_symbol_entry};
use crate::sections::{parsed_as, SectionKind, SectionKindView};
use crate::ordered_set::{map_insert, sorted_entries};
use crate::sorted_table::{pairs_map, sorted_pairs};

verus! {

broadcast use vstd::std_specs::hash::group_hash_axioms;

/// The string tables of the resources, by language symbol.
#[derive(Debug)]
pub struct ResourceData {
    pub langs: HashMap<u32, HashMap<u32, String>>,
}

impl ResourceData {
    /// The string tables as maps of character sequences.
    pub open spec fn spec_langs(&self) -> Map<u32, Map<u32, Seq<char>>> {
        self.langs@.map_values(|m: HashMap<u32, String>| m@.map_values(|s: String| s@))
    }
}

pub struct ResourceParser;

/// The kinds of resource jump table.
#[derive(Debug, Hash, Eq, PartialEq, Clone, Copy, Structural)]
pub enum JumpTableType {
    STRINGS,
    DRAWABLES,
    FONTS,
    JSONDATA,
    BARRELS,
}

/// The jump table kind that a 32-bit magic denotes.
pub open spec fn spec_jump_table_type(v: u32) -> Option<JumpTableType> {
    if v == 0x8000A2 {
        Some(JumpTableType::STRINGS)
    } else if v == 0x8000A3 {
        Some(JumpTableType::DRAWABLES)
    } else if v == 0x8000A4 {
        Some(JumpTableType::FONTS)
    } else if v == 0x8005C8 {
        Some(JumpTableType::JSONDATA)
    } else if v == 0x80072C {
        Some(JumpTableType::BARRELS)
    } else {
        None
    }
}

impl JumpTableType {
    pub fn from_u32(v: u32) -> (r: Option<JumpTableType>)
        ensures
            r == spec_jump_table_type(v),
    {
        match v {
            0x8000A2 => Some(JumpTableType::STRINGS),
            0x8000A3 => Some(JumpTableType::DRAWABLES),
            0x8000A4 => Some(JumpTableType::FONTS),
            0x8005C8 => Some(JumpTableType::JSONDATA),
            0x80072C => Some(JumpTableType::BARRELS),
            _ => None,
        }
    }
}

/// The type tags that resources carry.
#[derive(Debug, Eq, PartialEq, Clone, Copy, Structural)]
pub enum ResourceType {
    BITMAP,
    STRING,
    FONT,
    JSON,
    ANIMATION,
}

impl ResourceType {
    /// The tag byte of a resource type.
    pub fn code(&self) -> (c: u8)
        ensures
            c == (match self {
                ResourceType::BITMAP => 0u8,
                ResourceType::STRING => 1u8,
                ResourceType::FONT => 2u8,
                ResourceType::JSON => 3u8,
                ResourceType::ANIMATION => 4u8,
            }),
    {
        match self {
            ResourceType::BITMAP => 0,
            ResourceType::STRING => 1,
            ResourceType::FONT => 2,
            ResourceType::JSON => 3,
            ResourceType::ANIMATION => 4,
        }
    }
}

/// An overview entry: a jump table kind magic, which must be known, and the
/// table's offset.
pub open spec fn spec_overview_entry(r: ReaderView) -> PResult<(u32, JumpTableType)> {
    match spec_read_u32(r) {
        Err(e) => Err(e),
        Ok((m, r1)) => match spec_read_u32(r1) {
            Err(e) => Err(e),
            Ok((off, r2)) => match spec_jump_table_type(m) {
                Some(t) => Ok(((off, t), r2)),
                None => Err(ParseError::Malformed(Malformed::JumpTableType)),
            },
        },
    }
}

/// Moving forward to the offset `addr` (both taken as 32-bit signed values):
/// the bytes in between are skipped; an offset behind the position is
/// refused, and so is a distance beyond 32-bit range.
pub open spec fn spec_seek(r: ReaderView, addr: u32) -> PResult<()> {
    let d = twos(addr as int, 0x8000_0000) - twos(r.local_position % 0x1_0000_0000, 0x8000_0000);
    if d < i32::MIN || d > i32::MAX {
        Err(ParseError::Malformed(Malformed::SizeOverflow))
    } else if d > 0 {
        spec_consume(r, d)
    } else if d < 0 {
        Err(ParseError::Malformed(Malformed::ResourceOffset))
    } else {
        Ok(((), r))
    }
}

fn seek(reader: &mut BinaryReader, addr: u32) -> (res: Result<(), ParseError>)
    ensures
        match spec_seek(old(reader)@, addr) {
            Ok((_, r)) => res is Ok && final(reader)@ == r,
            Err(e) => res == Err::<(), ParseError>(e),
        },
{
    let a = u32_to_i32(addr);
    let l = u32_to_i32((reader.get_local_position() % 0x1_0000_0000) as u32);
    let diff = match a.checked_sub(l) {
        Some(d) => d,
        None => {
            return Err(ParseError::Malformed(Malformed::SizeOverflow));
        },
    };
    if diff > 0 {
        reader.consume(diff as u64)
    } else if diff < 0 {
        Err(ParseError::Malformed(Malformed::ResourceOffset))
    } else {
        Ok(())
    }
}

/// The subtable entries `pairs` (symbol, offset), each of kind `kind`,
/// inserted into `sub` by offset.
pub open spec fn sub_inserts(
    sub: Map<u32, (JumpTableType, u32)>,
    pairs: Seq<(u32, u32)>,
    kind: JumpTableType,
) -> Map<u32, (JumpTableType, u32)>
    decreases pairs.len(),
{
    if pairs.len() == 0 {
        sub
    } else {
        sub_inserts(sub, pairs.drop_last(), kind).insert(pairs.last().1, (kind, pairs.last().0))
    }
}

/// The subtables, visited in offset order: each is found at its offset and
/// holds a 16-bit count of (symbol, offset) entries.
pub open spec fn spec_subtables(
    r: ReaderView,
    list: Seq<(u32, JumpTableType)>,
    i: nat,
    sub: Map<u32, (JumpTableType, u32)>,
) -> PResult<Map<u32, (JumpTableType, u32)>>
    decreases list.len() - i,
{
    if i >= list.len() {
        Ok((sub, r))
    } else {
        match spec_seek(r, list[i as int].0) {
            Err(e) => Err(e),
            Ok((_, r1)) => match spec_read_u16(r1) {
                Err(e) => Err(e),
                Ok((n, r2)) => match repeat(|x: ReaderView| spec_symbol_entry(x), r2, n as nat) {
                    Err(e) => Err(e),
                    Ok((pairs, r3)) => spec_subtables(r3, list, i + 1, sub_inserts(sub, pairs, list[i as int].1)),
                },
            },
        }
    }
}

/// A drawable: a tag byte; bitmaps and animations then carry a magic and
/// their skipped content.
pub open spec fn spec_drawable(r: ReaderView) -> PResult<()> {
    match spec_read_u8(r) {
        Err(e) => Err(e),
        Ok((val, r1)) => if val == 0 || val == 4 {
            match spec_read_i32(r1) {
                Err(e) => Err(e),
                Ok((m, r2)) => if m == 0xC11EE5E {
                    match spec_read_i32(r2) {
                        Err(e) => Err(e),
                        Ok((len, r3)) => spec_consume(r3, i32_as_u64(len)),
                    }
                } else if m == 0x2001600D {
                    match spec_read_bytes(r2, 26) {
                        Err(e) => Err(e),
                        Ok((_, r3)) => match spec_consume(r3, 20) {
                            Err(e) => Err(e),
                            Ok((_, r4)) => match spec_read_i32(r4) {
                                Err(e) => Err(e),
                                Ok((vl, r5)) => pmap(spec_read_bytes(r5, i32_as_u64(vl)), |_b: Seq<u8>| ()),
                            },
                        },
                    }
                } else {
                    Err(ParseError::Malformed(Malformed::Drawable))
                },
            }
        } else {
            Ok(((), r1))
        },
    }
}

fn parse_drawable(reader: &mut BinaryReader) -> (res: Result<(), ParseError>)
    ensures
        match spec_drawable(old(reader)@) {
            Ok((_, r)) => res is Ok && final(reader)@ == r,
            Err(e) => res == Err::<(), ParseError>(e),
        },
{
    let val = reader.read_u8()?;
    if val == 0 || val == 4 {
        let m = reader.read_i32()?;
        if m == 0xC11EE5E {
            let len = reader.read_i32()?;
            reader.consume(i32_to_u64(len))
        } else if m == 0x2001600D {
            let _header = reader.read_n_bytes(26)?;
            reader.consume(20)?;
            let video_length = reader.read_i32()?;
            let _video = reader.read_n_bytes(i32_to_u64(video_length))?;
            Ok(())
        } else {
            Err(ParseError::Malformed(Malformed::Drawable))
        }
    } else {
        Ok(())
    }
}

/// The strings of a string table: `k` strings, each at an offset that the
/// table names (each offset names at most one), tagged as a string, with a
/// 16-bit length, UTF-8 bytes and a terminator.
pub open spec fn spec_strings(
    r: ReaderView,
    symbols: Map<u32, u32>,
    k: nat,
    acc: Map<u32, Seq<char>>,
) -> PResult<Map<u32, Seq<char>>>
    decreases k,
{
    if k == 0 {
        Ok((acc, r))
    } else {
        let pos = offset_of(r);
        if symbols.contains_key(pos) {
            match spec_read_u8(r) {
                Err(e) => Err(e),
                Ok((t, r1)) => if t != 1 {
                    Err(ParseError::Malformed(Malformed::ResourceTag))
                } else {
                    match spec_read_u16(r1) {
                        Err(e) => Err(e),
                        Ok((len, r2)) => match spec_new_string(r2, len as int) {
                            Err(e) => Err(e),
                            Ok((s, r3)) => match spec_consume(r3, 1) {
                                Err(e) => Err(e),
                                Ok((_, r4)) => spec_strings(
                                    r4,
                                    symbols.remove(pos),
                                    (k - 1) as nat,
                                    acc.insert(symbols[pos], s),
                                ),
                            },
                        },
                    }
                },
            }
        } else {
            Err(ParseError::Malformed(Malformed::StringOffset))
        }
    }
}

/// A string table: a 16-bit count, that many (symbol, offset) entries, then
/// the strings.
pub open spec fn spec_string_table(r: ReaderView) -> PResult<Map<u32, Seq<char>>> {
    match spec_read_u16(r) {
        Err(e) => Err(e),
        Ok((count, r1)) => match repeat(|x: ReaderView| spec_symbol_entry(x), r1, count as nat) {
            Err(e) => Err(e),
            Ok((pairs, r2)) => spec_strings(r2, offsets_map(pairs), count as nat, Map::empty()),
        },
    }
}

fn parse_string_table(reader: &mut BinaryReader) -> (res: Result<HashMap<u32, String>, ParseError>)
    ensures
        match spec_string_table(old(reader)@) {
            Ok((m, r)) => res matches Ok(h) && h@.map_values(|s: String| s@) == m && final(reader)@ == r,
            Err(e) => res matches Err(e2) && e2 == e,
        },
{
    let string_count = reader.read_u16()?;
    let ghost r1 = reader@;
    let ghost p = |x: ReaderView| spec_symbol_entry(x);
    let ghost mut entries: Seq<(u32, u32)> = seq![];
    let mut symbols: HashMap<u32, u32> = HashMap::new();
    let mut i: u16 = 0;
    while i < string_count
        invariant
            i <= string_count,
            spec_read_u16(old(reader)@) == Ok::<(u16, ReaderView), ParseError>((string_count, r1)),
            p == (|x: ReaderView| spec_symbol_entry(x)),
            repeat(p, r1, i as nat) == Ok::<(Seq<(u32, u32)>, ReaderView), ParseError>((entries, reader@)),
            symbols@ == offsets_map(entries),
        decreases string_count - i,
    {
        let symbol = match reader.read_u32() {
            Ok(v) => v,
            Err(e) => {
                proof { lemma_repeat_err(p, r1, (i + 1) as nat, string_count as nat); }
                return Err(e);
            },
        };
        let string_offset = match reader.read_u32() {
            Ok(v) => v,
            Err(e) => {
                proof { lemma_repeat_err(p, r1, (i + 1) as nat, string_count as nat); }
                return Err(e);
            },
        };
        symbols.insert(string_offset, symbol);
        proof {
            let old_entries = entries;
            entries = entries.push((symbol, string_offset));
            assert(entries.drop_last() =~= old_entries);
        }
        i = i + 1;
    }
    let ghost r2 = reader@;
    let ghost target = spec_strings(r2, offsets_map(entries), string_count as nat, Map::empty());
    let mut strings: HashMap<u32, String> = HashMap::new();
    assert(strings@.map_values(|s: String| s@) =~= Map::<u32, Seq<char>>::empty());
    let mut j: u16 = 0;
    while j < string_count
        invariant
            j <= string_count,
            spec_read_u16(old(reader)@) == Ok::<(u16, ReaderView), ParseError>((string_count, r1)),
            p == (|x: ReaderView| spec_symbol_entry(x)),
            repeat(p, r1, string_count as nat) == Ok::<(Seq<(u32, u32)>, ReaderView), ParseError>((entries, r2)),
            target == spec_strings(r2, offsets_map(entries), string_count as nat, Map::empty()),
            spec_strings(reader@, symbols@, (string_count - j) as nat, strings@.map_values(|s: String| s@)) == target,
        decreases string_count - j,
    {
        let pos = (reader.get_local_position() % 0x1_0000_0000) as u32;
        match symbols.remove(&pos) {
            Some(symbol_id) => {
                let t = reader.read_u8()?;
                if t != 1 {
                    return Err(ParseError::Malformed(Malformed::ResourceTag));
                }
                let length = reader.read_u16()?;
                let string = reader.new_string(length as u64)?;
                let ghost s = string@;
                let ghost m_before = strings@;
                strings.insert(symbol_id, string);
                assert(strings@.map_values(|s: String| s@) =~= m_before.map_values(|s: String| s@).insert(symbol_id, s));
                reader.consume(1)?;
            },
            None => {
                return Err(ParseError::Malformed(Malformed::StringOffset));
            },
        }
        j = j + 1;
    }
    Ok(strings)
}

/// A font: a tag byte, then a normal font (its glyph table and data are
/// skipped; a failed skip is ignored) or a unicode font (header, glyph
/// count, data size, cmap header and groups, the cmap and glyph tables, and
/// the data, whose size may be overridden).
pub open spec fn spec_font(r: ReaderView) -> PResult<()> {
    match spec_read_u8(r) {
        Err(e) => Err(e),
        Ok((t, r1)) => if t != 2 {
            Err(ParseError::Malformed(Malformed::ResourceTag))
        } else {
            match spec_read_i32(r1) {
                Err(e) => Err(e),
                Ok((ft, r2)) => if ft == 61511 {
                    match spec_read_i32(r2) {
                        Err(e) => Err(e),
                        Ok((_height, r3)) => match spec_read_i32(r3) {
                            Err(e) => Err(e),
                            Ok((gc, r4)) => match spec_read_i32(r4) {
                                Err(e) => Err(e),
                                Ok((_min, r5)) => match spec_read_i32(r5) {
                                    Err(e) => Err(e),
                                    Ok((ds, r6)) => {
                                        let n = 3 * i32_as_u64(gc);
                                        if n > u64::MAX {
                                            Err(ParseError::Malformed(Malformed::SizeOverflow))
                                        } else {
                                            match spec_read_i32(spec_take(r6, n).1) {
                                                Err(e) => Err(e),
                                                Ok((_sentinel, r8)) => Ok(((), spec_take(r8, i32_as_u64(ds)).1)),
                                            }
                                        }
                                    },
                                },
                            },
                        },
                    }
                } else if ft == 62011 {
                    match spec_read_bytes(r2, 14) {
                        Err(e) => Err(e),
                        Ok((_, r3)) => match spec_read_i32(r3) {
                            Err(e) => Err(e),
                            Ok((gc, r4)) => match spec_read_u32(r4) {
                                Err(e) => Err(e),
                                Ok((raw, r5)) => match spec_read_bytes(r5, 12) {
                                    Err(e) => Err(e),
                                    Ok((_, r6)) => match spec_read_i32(r6) {
                                        Err(e) => Err(e),
                                        Ok((groups, r7)) => {
                                            let n1 = 12 * i32_as_u64(groups);
                                            let n2 = 4 * i32_as_u64(gc);
                                            if n1 > u64::MAX {
                                                Err(ParseError::Malformed(Malformed::SizeOverflow))
                                            } else {
                                                match spec_read_bytes(r7, n1) {
                                                    Err(e) => Err(e),
                                                    Ok((_, r8)) => if n2 > u64::MAX {
                                                        Err(ParseError::Malformed(Malformed::SizeOverflow))
                                                    } else {
                                                        match spec_read_bytes(r8, n2) {
                                                            Err(e) => Err(e),
                                                            Ok((_, r9)) => match spec_read_i32(r9) {
                                                                Err(e) => Err(e),
                                                                Ok((t2, r10)) => {
                                                                    let ds: PResult<u32> = if t2 == -855638003 {
                                                                        spec_read_u32(r10)
                                                                    } else {
                                                                        Ok((raw, r10))
                                                                    };
                                                                    match ds {
                                                                        Err(e) => Err(e),
                                                                        Ok((d, r11)) => pmap(spec_read_bytes(r11, d as int), |_b: Seq<u8>| ()),
                                                                    }
                                                                },
                                                            },
                                                        }
                                                    },
                                                }
                                            }
                                        },
                                    },
                                },
                            },
                        },
                    }
                } else {
                    Err(ParseError::Malformed(Malformed::Font))
                },
            }
        },
    }
}

fn parse_font(reader: &mut BinaryReader) -> (res: Result<(), ParseError>)
    ensures
        match spec_font(old(reader)@) {
            Ok((_, r)) => res is Ok && final(reader)@ == r,
            Err(e) => res == Err::<(), ParseError>(e),
        },
{
    let t = reader.read_u8()?;
    if t != 2 {
        return Err(ParseError::Malformed(Malformed::ResourceTag));
    }
    let font_type = reader.read_i32()?;
    if font_type == 61511 {
        let _height = reader.read_i32()?;
        let glyph_count = reader.read_i32()?;
        let _min = reader.read_i32()?;
        let data_size = reader.read_i32()?;
        let gc = i32_to_u64(glyph_count);
        if gc > u64::MAX / 3 {
            return Err(ParseError::Malformed(Malformed::SizeOverflow));
        }
        let _glyph_buffer = reader.read_n_bytes(3 * gc);
        let _sentinel = reader.read_i32()?;
        let _extra_data = reader.read_n_bytes(i32_to_u64(data_size));
        Ok(())
    } else if font_type == 62011 {
        let _header = reader.read_n_bytes(14)?;
        let glyph_count = reader.read_i32()?;
        let raw_data_size = reader.read_u32()?;
        let _cmap_header = reader.read_n_bytes(12)?;
        let cmap_groups = reader.read_i32()?;
        let groups = i32_to_u64(cmap_groups);
        if groups > u64::MAX / 12 {
            return Err(ParseError::Malformed(Malformed::SizeOverflow));
        }
        let _cmap = reader.read_n_bytes(12 * groups)?;
        let gc = i32_to_u64(glyph_count);
        if gc > u64::MAX / 4 {
            return Err(ParseError::Malformed(Malformed::SizeOverflow));
        }
        let _glyphs = reader.read_n_bytes(4 * gc)?;
        let data_size = if reader.read_i32()? == -855638003 {
            reader.read_u32()?
        } else {
            raw_data_size
        };
        let _extra_data = reader.read_n_bytes(data_size as u64)?;
        Ok(())
    } else {
        Err(ParseError::Malformed(Malformed::Font))
    }
}

/// A JSON resource: a tag byte, a 32-bit length and that many skipped bytes
/// (a failed skip is ignored).
pub open spec fn spec_json(r: ReaderView) -> PResult<()> {
    match spec_read_u8(r) {
        Err(e) => Err(e),
        Ok((t, r1)) => if t != 3 {
            Err(ParseError::Malformed(Malformed::ResourceTag))
        } else {
            match spec_read_i32(r1) {
                Err(e) => Err(e),
                Ok((len, r2)) => Ok(((), spec_take(r2, i32_as_u64(len)).1)),
            }
        },
    }
}

fn parse_json(reader: &mut BinaryReader) -> (res: Result<(), ParseError>)
    ensures
        match spec_json(old(reader)@) {
            Ok((_, r)) => res is Ok && final(reader)@ == r,
            Err(e) => res == Err::<(), ParseError>(e),
        },
{
    let t = reader.read_u8()?;
    if t != 3 {
        return Err(ParseError::Malformed(Malformed::ResourceTag));
    }
    let len = reader.read_i32()?;
    let _json = reader.read_n_bytes(i32_to_u64(len));
    Ok(())
}

/// One resource of kind `jtt` for the language or item `id`; string tables
/// are recorded by `id`.
pub open spec fn spec_resource(
    jtt: JumpTableType,
    id: u32,
    r: ReaderView,
    langs: Map<u32, Map<u32, Seq<char>>>,
) -> PResult<Map<u32, Map<u32, Seq<char>>>> {
    match jtt {
        JumpTableType::DRAWABLES => pmap(spec_drawable(r), |_u: ()| langs),
        JumpTableType::STRINGS => pmap(spec_string_table(r), |s: Map<u32, Seq<char>>| langs.insert(id, s)),
        JumpTableType::FONTS => pmap(spec_font(r), |_u: ()| langs),
        JumpTableType::JSONDATA => pmap(spec_json(r), |_u: ()| langs),
        JumpTableType::BARRELS => Ok((langs, r)),
    }
}

/// The resources, visited in offset order; barrels are passed over.
pub open spec fn spec_resource_list(
    r: ReaderView,
    list: Seq<(u32, (JumpTableType, u32))>,
    i: nat,
    langs: Map<u32, Map<u32, Seq<char>>>,
) -> PResult<Map<u32, Map<u32, Seq<char>>>>
    decreases list.len() - i,
{
    if i >= list.len() {
        Ok((langs, r))
    } else if list[i as int].1.0 == JumpTableType::BARRELS {
        spec_resource_list(r, list, i + 1, langs)
    } else {
        match spec_seek(r, list[i as int].0) {
            Err(e) => Err(e),
            Ok((_, r1)) => match spec_resource(list[i as int].1.0, list[i as int].1.1, r1, langs) {
                Err(e) => Err(e),
                Ok((l2, r2)) => spec_resource_list(r2, list, i + 1, l2),
            },
        }
    }
}

/// A resource section: a 16-bit count of overview entries, the subtables
/// they point to, the resources those point to, and the rest skipped.
pub open spec fn spec_resources(r: ReaderView) -> PResult<SectionKindView> {
    match spec_read_u16(r) {
        Err(e) => Err(e),
        Ok((n, r1)) => match repeat(|x: ReaderView| spec_overview_entry(x), r1, n as nat) {
            Err(e) => Err(e),
            Ok((ov, r2)) => match spec_subtables(r2, sorted_pairs(pairs_map(ov)), 0, Map::empty()) {
                Err(e) => Err(e),
                Ok((sub, r3)) => match spec_resource_list(r3, sorted_pairs(sub), 0, Map::empty()) {
                    Err(e) => Err(e),
                    Ok((langs, r4)) => match spec_consume(r4, r4.remaining) {
                        Err(e) => Err(e),
                        Ok((_, r5)) => Ok((SectionKindView::Resources(langs), r5)),
                    },
                },
            },
        },
    }
}

/// The string tables as maps of character sequences.
pub open spec fn langs_view(m: Map<u32, HashMap<u32, String>>) -> Map<u32, Map<u32, Seq<char>>> {
    m.map_values(|h: HashMap<u32, String>| h@.map_values(|s: String| s@))
}

fn read_overview_entry(reader: &mut BinaryReader) -> (res: Result<(u32, JumpTableType), ParseError>)
    ensures
        match spec_overview_entry(old(reader)@) {
            Ok((v, r)) => res == Ok::<(u32, JumpTableType), ParseError>(v) && final(reader)@ == r,
            Err(e) => res == Err::<(u32, JumpTableType), ParseError>(e),
        },
{
    let jtt_magic = reader.read_u32()?;
    let string_offset = reader.read_u32()?;
    match JumpTableType::from_u32(jtt_magic) {
        Some(t) => Ok((string_offset, t)),
        None => Err(ParseError::Malformed(Malformed::JumpTableType)),
    }
}

impl ResourceParser {
    pub fn parse(&self, reader: &mut BinaryReader) -> (res: Result<SectionKind, ParseError>)
        ensures
            parsed_as(spec_resources(old(reader)@), res, final(reader)@),
    {
        // the overview table, by offset
        let n = reader.read_u16()?;
        let ghost r1 = reader@;
        let ghost p = |x: ReaderView| spec_overview_entry(x);
        let ghost mut ov: Seq<(u32, JumpTableType)> = seq![];
        let mut overview_map: BTreeMap<u32, JumpTableType> = BTreeMap::new();
        let mut i: u16 = 0;
        while i < n
            invariant
                i <= n,
                spec_read_u16(old(reader)@) == Ok::<(u16, ReaderView), ParseError>((n, r1)),
                p == (|x: ReaderView| spec_overview_entry(x)),
                repeat(p, r1, i as nat) == Ok::<(Seq<(u32, JumpTableType)>, ReaderView), ParseError>((ov, reader@)),
                overview_map@ == pairs_map(ov),
            decreases n - i,
        {
            let entry = match read_overview_entry(reader) {
                Ok(v) => v,
                Err(e) => {
                    proof { lemma_repeat_err(p, r1, (i + 1) as nat, n as nat); }
                    return Err(e);
                },
            };
            map_insert(&mut overview_map, entry.0, entry.1);
            proof {
                let old_ov = ov;
                ov = ov.push(entry);
                assert(ov.drop_last() =~= old_ov);
            }
            i = i + 1;
        }
        let overview_table = sorted_entries(&overview_map);
        let ghost r2 = reader@;
        let ghost list = overview_table@;
        assert(list == sorted_pairs(pairs_map(ov)));

        // the subtables, by offset
        let mut subtable_map: BTreeMap<u32, (JumpTableType, u32)> = BTreeMap::new();
        let mut k: usize = 0;
        while k < overview_table.len()
            invariant
                k <= overview_table@.len(),
                list == overview_table@,
                spec_read_u16(old(reader)@) == Ok::<(u16, ReaderView), ParseError>((n, r1)),
                p == (|x: ReaderView| spec_overview_entry(x)),
                repeat(p, r1, n as nat) == Ok::<(Seq<(u32, JumpTableType)>, ReaderView), ParseError>((ov, r2)),
                list == sorted_pairs(pairs_map(ov)),
                spec_subtables(reader@, list, k as nat, subtable_map@)
                    == spec_subtables(r2, list, 0, Map::empty()),
            decreases overview_table@.len() - k,
        {
            let (addr, magic) = overview_table[k];
            let ghost outer = reader@;
            let ghost sub_start = subtable_map@;
            seek(reader, addr)?;
            let ghost rs = reader@;
            let count = reader.read_u16()?;
            let ghost q = |x: ReaderView| spec_symbol_entry(x);
            let ghost r3 = reader@;
            let ghost mut pairs: Seq<(u32, u32)> = seq![];
            let ghost sub0 = subtable_map@;
            let mut j: u16 = 0;
            while j < count
                invariant
                    j <= count,
                    q == (|x: ReaderView| spec_symbol_entry(x)),
                    repeat(q, r3, j as nat) == Ok::<(Seq<(u32, u32)>, ReaderView), ParseError>((pairs, reader@)),
                    subtable_map@ == sub_inserts(sub0, pairs, magic),
                    sub0 == sub_start,
                    k < list.len(),
                    list[k as int] == (addr, magic),
                    spec_read_u16(old(reader)@) == Ok::<(u16, ReaderView), ParseError>((n, r1)),
                    p == (|x: ReaderView| spec_overview_entry(x)),
                    repeat(p, r1, n as nat) == Ok::<(Seq<(u32, JumpTableType)>, ReaderView), ParseError>((ov, r2)),
                    list == sorted_pairs(pairs_map(ov)),
                    spec_subtables(outer, list, k as nat, sub_start) == spec_subtables(r2, list, 0, Map::empty()),
                    spec_seek(outer, addr) == Ok::<((), ReaderView), ParseError>(((), rs)),
                    spec_read_u16(rs) == Ok::<(u16, ReaderView), ParseError>((count, r3)),
                decreases count - j,
            {
                let symbol = match reader.read_u32() {
                    Ok(v) => v,
                    Err(e) => {
                        proof { lemma_repeat_err(q, r3, (j + 1) as nat, count as nat); }
                        return Err(e);
                    },
                };
                let offset = match reader.read_u32() {
                    Ok(v) => v,
                    Err(e) => {
                        proof { lemma_repeat_err(q, r3, (j + 1) as nat, count as nat); }
                        return Err(e);
                    },
                };
                map_insert(&mut subtable_map, offset, (magic, symbol));
                proof {
                    let old_pairs = pairs;
                    pairs = pairs.push((symbol, offset));
                    assert(pairs.drop_last() =~= old_pairs);
                }
                j = j + 1;
            }
            k = k + 1;
        }
        let subtable = sorted_entries(&subtable_map);
        let ghost r3 = reader@;
        let ghost slist = subtable@;

        // the resources, by offset
        let mut langs: HashMap<u32, HashMap<u32, String>> = HashMap::new();
        assert(langs_view(langs@) =~= Map::<u32, Map<u32, Seq<char>>>::empty());
        let mut k: usize = 0;
        while k < subtable.len()
            invariant
                k <= subtable@.len(),
                slist == subtable@,
                slist == sorted_pairs(pairs_map(subtable@)),
                spec_read_u16(old(reader)@) == Ok::<(u16, ReaderView), ParseError>((n, r1)),
                p == (|x: ReaderView| spec_overview_entry(x)),
                repeat(p, r1, n as nat) == Ok::<(Seq<(u32, JumpTableType)>, ReaderView), ParseError>((ov, r2)),
                spec_subtables(r2, sorted_pairs(pairs_map(ov)), 0, Map::empty())
                    == Ok::<(Map<u32, (JumpTableType, u32)>, ReaderView), ParseError>((pairs_map(subtable@), r3)),
                spec_resource_list(reader@, slist, k as nat, langs_view(langs@))
                    == spec_resource_list(r3, slist, 0, Map::empty()),
            decreases subtable@.len() - k,
        {
            let (addr, (jtt, id)) = subtable[k];
            if jtt != JumpTableType::BARRELS {
                seek(reader, addr)?;
                match jtt {
                    JumpTableType::DRAWABLES => {
                        parse_drawable(reader)?;
                    },
                    JumpTableType::STRINGS => {
                        let strings = parse_string_table(reader)?;
                        let ghost s = strings@.map_values(|s: String| s@);
                        let ghost before = langs@;
                        langs.insert(id, strings);
                        assert(langs_view(langs@) =~= langs_view(before).insert(id, s));
                    },
                    JumpTableType::FONTS => {
                        parse_font(reader)?;
                    },
                    JumpTableType::JSONDATA => {
                        parse_json(reader)?;
                    },
                    JumpTableType::BARRELS => {},
                }
            }
            k = k + 1;
        }
        let rest = reader.get_remaining();
        reader.consume(rest)?;
        assert(langs_view(langs@) == ResourceData { langs }.spec_langs());
        Ok(SectionKind::Resources(ResourceData { langs }))
    }
}

} // verus!
