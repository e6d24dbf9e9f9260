use vstd::prelude::*;
use std::collections::HashMap;

use crate::binary_reader::{repeat, lemma_repeat_err, spec_new_string, spec_read_u16, spec_read_u32, spec_read_u8, BinaryReader, PResult, ReaderView};
use crate::error::{Malformed, ParseError};
use crate::sections::{parsed_as, SectionKind, SectionKindView};

verus! {

broadcast use vstd::std_specs::hash::group_hash_axioms;

/// Symbol names by symbol id.
pub type SymbolData = HashMap<u32, String>;

/// The names of a symbol table, as character sequences.
pub open spec fn symbols_view(m: Map<u32, String>) -> Map<u32, Seq<char>> {
    m.map_values(|s: String| s@)
}

/// One table entry: a symbol id, then the offset of its name.
pub open spec fn spec_symbol_entry(r: ReaderView) -> PResult<(u32, u32)> {
    match spec_read_u32(r) {
        Err(e) => Err(e),
        Ok((sym, r1)) => match spec_read_u32(r1) {
            Err(e) => Err(e),
            Ok((off, r2)) => Ok(((sym, off), r2)),
        },
    }
}

/// The symbol that each name offset refers to; a later entry for an offset
/// replaces an earlier one.
pub open spec fn offsets_map(entries: Seq<(u32, u32)>) -> Map<u32, u32>
    decreases entries.len(),
{
    if entries.len() == 0 {
        Map::empty()
    } else {
        offsets_map(entries.drop_last()).insert(entries.last().1, entries.last().0)
    }
}

/// The window position as a 32-bit offset.
pub open spec fn offset_of(r: ReaderView) -> u32 {
    (r.local_position % 0x1_0000_0000) as u32
}

/// The names that follow the table, to the end of the section: each is a
/// tag byte, a 16-bit length, that many UTF-8 bytes and a terminating byte,
/// and it must stand at an offset that a table entry names (each offset
/// names at most one string).
pub open spec fn spec_symbol_strings(
    r: ReaderView,
    offsets: Map<u32, u32>,
    acc: Map<u32, Seq<char>>,
) -> PResult<Map<u32, Seq<char>>>
    decreases r.remaining,
{
    if r.remaining <= 0 {
        Ok((acc, r))
    } else {
        let pos = offset_of(r);
        match spec_read_u8(r) {
            Err(e) => Err(e),
            Ok((_, r1)) => match spec_read_u16(r1) {
                Err(e) => Err(e),
                Ok((len, r2)) => match spec_new_string(r2, len as int) {
                    Err(e) => Err(e),
                    Ok((s, r3)) => if offsets.contains_key(pos) {
                        match spec_read_u8(r3) {
                            Err(e) => Err(e),
                            Ok((_, r4)) => spec_symbol_strings(
                                r4,
                                offsets.remove(pos),
                                acc.insert(offsets[pos], s),
                            ),
                        }
                    } else {
                        Err(ParseError::Malformed(Malformed::StringOffset))
                    },
                },
            },
        }
    }
}

/// A symbols section: a 16-bit count, that many table entries, then the
/// names.
pub open spec fn spec_symbols(r: ReaderView) -> PResult<SectionKindView> {
    match spec_read_u16(r) {
        Err(e) => Err(e),
        Ok((n, r1)) => match repeat(|x: ReaderView| spec_symbol_entry(x), r1, n as nat) {
            Err(e) => Err(e),
            Ok((entries, r2)) => match spec_symbol_strings(r2, offsets_map(entries), Map::empty()) {
                Ok((names, r3)) => Ok((SectionKindView::Symbols(names), r3)),
                Err(e) => Err(e),
            },
        },
    }
}

pub struct SymbolParser;

impl SymbolParser {
    pub fn parse(&self, reader: &mut BinaryReader) -> (res: Result<SectionKind, ParseError>)
        ensures
            parsed_as(spec_symbols(old(reader)@), res, final(reader)@),
    {
        let symbol_count = reader.read_u16()?;
        let ghost r1 = reader@;
        let ghost p = |x: ReaderView| spec_symbol_entry(x);
        let ghost mut entries: Seq<(u32, u32)> = seq![];
        let mut offset_to_symbol_id: HashMap<u32, u32> = HashMap::new();
        let mut i: u16 = 0;
        while i < symbol_count
            invariant
                i <= symbol_count,
                spec_read_u16(old(reader)@) == Ok::<(u16, ReaderView), ParseError>((symbol_count, r1)),
                p == (|x: ReaderView| spec_symbol_entry(x)),
                repeat(p, r1, i as nat) == Ok::<(Seq<(u32, u32)>, ReaderView), ParseError>((entries, reader@)),
                offset_to_symbol_id@ == offsets_map(entries),
            decreases symbol_count - i,
        {
            let ghost before = reader@;
            let symbol = match reader.read_u32() {
                Ok(v) => v,
                Err(e) => {
                    proof { lemma_repeat_err(p, r1, (i + 1) as nat, symbol_count as nat); }
                    return Err(e);
                },
            };
            let string_offset = match reader.read_u32() {
                Ok(v) => v,
                Err(e) => {
                    proof { lemma_repeat_err(p, r1, (i + 1) as nat, symbol_count as nat); }
                    return Err(e);
                },
            };
            offset_to_symbol_id.insert(string_offset, symbol);
            proof {
                let old_entries = entries;
                entries = entries.push((symbol, string_offset));
                assert(entries.drop_last() =~= old_entries);
            }
            i = i + 1;
        }
        let ghost r2 = reader@;
        let ghost target = spec_symbol_strings(r2, offsets_map(entries), Map::empty());
        let mut symbols: HashMap<u32, String> = HashMap::new();
        assert(symbols_view(symbols@) =~= Map::empty());
        while reader.has_remaining()
            invariant
                spec_read_u16(old(reader)@) == Ok::<(u16, ReaderView), ParseError>((symbol_count, r1)),
                p == (|x: ReaderView| spec_symbol_entry(x)),
                repeat(p, r1, symbol_count as nat) == Ok::<(Seq<(u32, u32)>, ReaderView), ParseError>((entries, r2)),
                target == spec_symbol_strings(r2, offsets_map(entries), Map::empty()),
                spec_symbol_strings(reader@, offset_to_symbol_id@, symbols_view(symbols@)) == target,
            decreases reader@.remaining,
        {
            reader.well_formed();
            let ghost before = reader@;
            let pos = (reader.get_local_position() % 0x1_0000_0000) as u32;
            reader.read_u8()?;
            let length = reader.read_u16()?;
            let string = reader.new_string(length as u64)?;
            match offset_to_symbol_id.remove(&pos) {
                Some(symbol_id) => {
                    let ghost s = string@;
                    let ghost m_before = symbols@;
                    symbols.insert(symbol_id, string);
                    assert(symbols_view(symbols@) =~= symbols_view(m_before).insert(symbol_id, s));
                },
                None => {
                    return Err(ParseError::Malformed(Malformed::StringOffset));
                },
            }
            reader.read_u8()?;
        }
        Ok(SectionKind::Symbols(symbols))
    }
}

} // verus!
