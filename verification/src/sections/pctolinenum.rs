use vstd::prelude::*;

use crate::binary_reader::{repeat, lemma_repeat_err, spec_read_i32, spec_read_u16, spec_read_u32, BinaryReader, PResult, ReaderView};
use crate::constants::{CodeAddress, DataAddress};
use crate::error::ParseError;
use crate::sections::{parsed_as, SectionKind, SectionKindView};

verus! {

/// The source location of an instruction.
#[derive(Debug, Clone, Copy, PartialEq, Eq, Structural)]
pub struct PcToLineNumEntry {
    pub addr: CodeAddress,
    pub file: DataAddress,
    pub symbol: DataAddress,
    pub linenum: i32,
}

pub type PcToLineNumData = Vec<PcToLineNumEntry>;

/// One entry: the instruction's code address, the file and symbol names'
/// data addresses (each a 32-bit pattern), and the line number.
pub open spec fn spec_line_entry(r: ReaderView) -> PResult<PcToLineNumEntry> {
    match spec_read_u32(r) {
        Err(e) => Err(e),
        Ok((a, r1)) => match spec_read_u32(r1) {
            Err(e) => Err(e),
            Ok((f, r2)) => match spec_read_u32(r2) {
                Err(e) => Err(e),
                Ok((s, r3)) => match spec_read_i32(r3) {
                    Err(e) => Err(e),
                    Ok((l, r4)) => Ok((
                        PcToLineNumEntry {
                            addr: CodeAddress(a),
                            file: DataAddress(f),
                            symbol: DataAddress(s),
                            linenum: l,
                        },
                        r4,
                    )),
                },
            },
        },
    }
}

/// A line number section: a 16-bit count, then that many entries.
pub open spec fn spec_pc_to_line_num(r: ReaderView) -> PResult<SectionKindView> {
    match spec_read_u16(r) {
        Err(e) => Err(e),
        Ok((n, r1)) => match repeat(|x: ReaderView| spec_line_entry(x), r1, n as nat) {
            Ok((es, r2)) => Ok((SectionKindView::PcToLineNum(es), r2)),
            Err(e) => Err(e),
        },
    }
}

fn read_line_entry(reader: &mut BinaryReader) -> (res: Result<PcToLineNumEntry, ParseError>)
    ensures
        match spec_line_entry(old(reader)@) {
            Ok((v, r)) => res == Ok::<PcToLineNumEntry, ParseError>(v) && final(reader)@ == r,
            Err(e) => res == Err::<PcToLineNumEntry, ParseError>(e),
        },
{
    let addr = CodeAddress::new_from_local(reader.read_u32()?);
    let file = DataAddress::new_from_local(reader.read_u32()?);
    let symbol = DataAddress::new_from_local(reader.read_u32()?);
    let linenum = reader.read_i32()?;
    Ok(PcToLineNumEntry { addr, file, symbol, linenum })
}

pub struct PcToLineNumParser;

impl PcToLineNumParser {
    pub fn parse(&self, reader: &mut BinaryReader) -> (res: Result<SectionKind, ParseError>)
        ensures
            parsed_as(spec_pc_to_line_num(old(reader)@), res, final(reader)@),
    {
        let n = reader.read_u16()?;
        let ghost r1 = reader@;
        let ghost p = |x: ReaderView| spec_line_entry(x);
        let mut entries: Vec<PcToLineNumEntry> = Vec::new();
        let mut i: u16 = 0;
        while i < n
            invariant
                i <= n,
                spec_read_u16(old(reader)@) == Ok::<(u16, ReaderView), ParseError>((n, r1)),
                p == (|x: ReaderView| spec_line_entry(x)),
                repeat(p, r1, i as nat) == Ok::<(Seq<PcToLineNumEntry>, ReaderView), ParseError>((entries@, reader@)),
            decreases n - i,
        {
            match read_line_entry(reader) {
                Ok(v) => entries.push(v),
                Err(e) => {
                    proof { lemma_repeat_err(p, r1, (i + 1) as nat, n as nat); }
                    return Err(e);
                },
            }
            i = i + 1;
        }
        Ok(SectionKind::PcToLineNum(entries))
    }
}

} // verus!
