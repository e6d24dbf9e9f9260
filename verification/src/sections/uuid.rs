use vstd::prelude::*;

use crate::binary_reader::{spec_consume, spec_read_bytes, BinaryReader, PResult, ReaderView};
use crate::error::{Malformed, ParseError};
use crate::sections::{parsed_as, SectionKind, SectionKindView};

verus! {

/// The twenty bytes that identify an application.
pub type UUID = [u8; 20];

/// A UUID section: twenty bytes, then either nothing or five padding bytes
/// (as more modern devices write them).
pub open spec fn spec_uuid(r: ReaderView) -> PResult<SectionKindView> {
    match spec_read_bytes(r, 20) {
        Err(e) => Err(e),
        Ok((b, r1)) => if r1.remaining == 5 {
            match spec_consume(r1, 5) {
                Ok((_, r2)) => Ok((SectionKindView::UUID(b), r2)),
                Err(e) => Err(e),
            }
        } else if r1.remaining != 0 {
            Err(ParseError::Malformed(Malformed::UuidTrailing))
        } else {
            Ok((SectionKindView::UUID(b), r1))
        },
    }
}

#[derive(Debug)]
pub struct UUIDParser;

impl UUIDParser {
    pub fn parse(&self, reader: &mut BinaryReader) -> (res: Result<SectionKind, ParseError>)
        ensures
            parsed_as(spec_uuid(old(reader)@), res, final(reader)@),
    {
        let bytes = reader.read_bytes::<20>()?;
        if reader.get_remaining() == 5 {
            reader.consume(5)?;
        } else if reader.get_remaining() != 0 {
            return Err(ParseError::Malformed(Malformed::UuidTrailing));
        }
        Ok(SectionKind::UUID(bytes))
    }
}

} // verus!
