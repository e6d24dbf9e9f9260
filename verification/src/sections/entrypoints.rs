use vstd::prelude::*;

use crate::binary_reader::{repeat, lemma_repeat_err, spec_read_bytes, spec_read_i32, spec_read_u16, spec_read_u32, BinaryReader, PResult, ReaderView};
use crate::constants::SymbolAddress;
use crate::error::ParseError;
use crate::sections::{parsed_as, SectionKind, SectionKindView};

verus! {

/// An application entry point.
#[derive(Debug, Clone, Copy)]
pub struct EntryPoint {
    pub id: [u8; 16],
    pub module_id: SymbolAddress,
    pub class_id: SymbolAddress,
    pub label_id: SymbolAddress,
    pub iconlabel_id: i32,
    pub flags: i32,
}

#[derive(Debug)]
pub struct EntryPointsData {
    pub entrypoints: Vec<EntryPoint>,
}

/// One entry point: a sixteen-byte id, module, class and label symbols, the
/// icon label and the flags.
pub open spec fn spec_entry_point(r: ReaderView) -> PResult<EntryPoint> {
    match spec_read_bytes(r, 16) {
        Err(e) => Err(e),
        Ok((id, r1)) => match spec_read_u32(r1) {
            Err(e) => Err(e),
            Ok((m, r2)) => match spec_read_u32(r2) {
                Err(e) => Err(e),
                Ok((c, r3)) => match spec_read_u32(r3) {
                    Err(e) => Err(e),
                    Ok((l, r4)) => match spec_read_i32(r4) {
                        Err(e) => Err(e),
                        Ok((icon, r5)) => match spec_read_i32(r5) {
                            Err(e) => Err(e),
                            Ok((flags, r6)) => {
                                let ep = EntryPoint {
                                    id: spec_id16(id),
                                    module_id: SymbolAddress(m),
                                    class_id: SymbolAddress(c),
                                    label_id: SymbolAddress(l),
                                    iconlabel_id: icon,
                                    flags: flags,
                                };
                                Ok((ep, r6))
                            },
                        },
                    },
                },
            },
        },
    }
}

/// The sixteen-byte array that holds the given bytes.
pub open spec fn spec_id16(b: Seq<u8>) -> [u8; 16] {
    choose|a: [u8; 16]| a@ == b
}

/// An entry points section: a 16-bit count, then that many entry points.
pub open spec fn spec_entry_points(r: ReaderView) -> PResult<SectionKindView> {
    match spec_read_u16(r) {
        Err(e) => Err(e),
        Ok((n, r1)) => match repeat(|x: ReaderView| spec_entry_point(x), r1, n as nat) {
            Ok((eps, r2)) => Ok((SectionKindView::EntryPoints(eps), r2)),
            Err(e) => Err(e),
        },
    }
}

fn read_entry_point(reader: &mut BinaryReader) -> (res: Result<EntryPoint, ParseError>)
    ensures
        match spec_entry_point(old(reader)@) {
            Ok((v, r)) => res == Ok::<EntryPoint, ParseError>(v) && final(reader)@ == r,
            Err(e) => res == Err::<EntryPoint, ParseError>(e),
        },
{
    let id: [u8; 16] = reader.read_bytes::<16>()?;
    let module_id = SymbolAddress::new_from_local(reader.read_u32()?);
    let class_id = SymbolAddress::new_from_local(reader.read_u32()?);
    let label_id = SymbolAddress::new_from_local(reader.read_u32()?);
    let iconlabel_id = reader.read_i32()?;
    let flags = reader.read_i32()?;
    proof {
        let b = id@;
        assert(spec_id16(b)@ == b);
        assert(spec_id16(b) =~= id);
    }
    Ok(EntryPoint { id, module_id, class_id, label_id, iconlabel_id, flags })
}

pub struct EntrypointParser;

impl EntrypointParser {
    pub fn parse(&self, reader: &mut BinaryReader) -> (res: Result<SectionKind, ParseError>)
        ensures
            parsed_as(spec_entry_points(old(reader)@), res, final(reader)@),
    {
        let count = reader.read_u16()?;
        let ghost r1 = reader@;
        let ghost p = |x: ReaderView| spec_entry_point(x);
        let mut entrypoints: Vec<EntryPoint> = Vec::new();
        let mut i: u16 = 0;
        while i < count
            invariant
                i <= count,
                spec_read_u16(old(reader)@) == Ok::<(u16, ReaderView), ParseError>((count, r1)),
                p == (|x: ReaderView| spec_entry_point(x)),
                repeat(p, r1, i as nat) == Ok::<(Seq<EntryPoint>, ReaderView), ParseError>((entrypoints@, reader@)),
            decreases count - i,
        {
            match read_entry_point(reader) {
                Ok(ep) => entrypoints.push(ep),
                Err(e) => {
                    proof { lemma_repeat_err(p, r1, (i + 1) as nat, count as nat); }
                    return Err(e);
                },
            }
            i = i + 1;
        }
        Ok(SectionKind::EntryPoints(EntryPointsData { entrypoints }))
    }
}

} // verus!
