use vstd::prelude::*;

use crate::binary_reader::{repeat, lemma_repeat_err, spec_read_u16, spec_read_u8, BinaryReader, PResult, ReaderView};
use crate::error::{Malformed, ParseError};
use crate::sections::{parsed_as, SectionKind, SectionKindView};

verus! {

/// A try block and its handler, as 24-bit code positions.
#[derive(Debug, Clone, Copy, PartialEq, Eq, Structural)]
pub struct TableEntry {
    pub try_begin: u64,
    pub try_end: u64,
    pub handle_begin: u64,
}

pub type ExceptionsData = Vec<TableEntry>;

pub struct ExceptionParser;

/// A big-endian 24-bit value.
pub open spec fn spec_read_u24(r: ReaderView) -> PResult<u64> {
    match spec_read_u8(r) {
        Err(e) => Err(e),
        Ok((a, r1)) => match spec_read_u8(r1) {
            Err(e) => Err(e),
            Ok((b, r2)) => match spec_read_u8(r2) {
                Err(e) => Err(e),
                Ok((c, r3)) => Ok(((a * 0x1_0000 + b * 0x100 + c) as u64, r3)),
            },
        },
    }
}

/// One table entry: try begin, try end and handler begin.
pub open spec fn spec_table_entry(r: ReaderView) -> PResult<TableEntry> {
    match spec_read_u24(r) {
        Err(e) => Err(e),
        Ok((a, r1)) => match spec_read_u24(r1) {
            Err(e) => Err(e),
            Ok((b, r2)) => match spec_read_u24(r2) {
                Err(e) => Err(e),
                Ok((c, r3)) => Ok((TableEntry { try_begin: a, try_end: b, handle_begin: c }, r3)),
            },
        },
    }
}

/// An exceptions section: a 16-bit count, which must be there, then that
/// many table entries.
pub open spec fn spec_exceptions(r: ReaderView) -> PResult<SectionKindView> {
    match spec_read_u16(r) {
        Err(_) => Err(ParseError::Malformed(Malformed::MissingCount)),
        Ok((n, r1)) => match repeat(|x: ReaderView| spec_table_entry(x), r1, n as nat) {
            Ok((es, r2)) => Ok((SectionKindView::Exceptions(es), r2)),
            Err(e) => Err(e),
        },
    }
}

impl<'a> crate::binary_reader::BinaryReader<'a> {
    pub fn read_u24(&mut self) -> (res: Result<u64, ParseError>)
        ensures
            match spec_read_u24(old(self)@) {
                Ok((v, r)) => res == Ok::<u64, ParseError>(v) && final(self)@ == r,
                Err(e) => res == Err::<u64, ParseError>(e),
            },
    {
        let a = self.read_u8()?;
        let b = self.read_u8()?;
        let c = self.read_u8()?;
        Ok((a as u64) * 0x1_0000 + (b as u64) * 0x100 + (c as u64))
    }
}

fn read_table_entry(reader: &mut BinaryReader) -> (res: Result<TableEntry, ParseError>)
    ensures
        match spec_table_entry(old(reader)@) {
            Ok((v, r)) => res == Ok::<TableEntry, ParseError>(v) && final(reader)@ == r,
            Err(e) => res == Err::<TableEntry, ParseError>(e),
        },
{
    let try_begin = reader.read_u24()?;
    let try_end = reader.read_u24()?;
    let handle_begin = reader.read_u24()?;
    Ok(TableEntry { try_begin, try_end, handle_begin })
}

impl ExceptionParser {
    pub fn parse(&self, reader: &mut BinaryReader) -> (res: Result<SectionKind, ParseError>)
        ensures
            parsed_as(spec_exceptions(old(reader)@), res, final(reader)@),
    {
        let n = match reader.read_u16() {
            Ok(n) => n,
            Err(_) => {
                return Err(ParseError::Malformed(Malformed::MissingCount));
            },
        };
        let ghost r1 = reader@;
        let ghost p = |x: ReaderView| spec_table_entry(x);
        let mut entries: Vec<TableEntry> = Vec::new();
        let mut i: u16 = 0;
        while i < n
            invariant
                i <= n,
                spec_read_u16(old(reader)@) == Ok::<(u16, ReaderView), ParseError>((n, r1)),
                p == (|x: ReaderView| spec_table_entry(x)),
                repeat(p, r1, i as nat) == Ok::<(Seq<TableEntry>, ReaderView), ParseError>((entries@, reader@)),
            decreases n - i,
        {
            match read_table_entry(reader) {
                Ok(v) => entries.push(v),
                Err(e) => {
                    proof { lemma_repeat_err(p, r1, (i + 1) as nat, n as nat); }
                    return Err(e);
                },
            }
            i = i + 1;
        }
        Ok(SectionKind::Exceptions(entries))
    }
}

} // verus!
