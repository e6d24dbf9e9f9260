use vstd::prelude::*;

use crate::binary_reader::{spec_consume, BinaryReader, PResult, ReaderView};
use crate::error::ParseError;
use crate::sections::{parsed_as, SectionKind, SectionKindView};

verus! {

#[derive(Debug, Clone, Copy, PartialEq, Eq, Structural)]
pub struct SettingsData {}

/// A settings section: its content is skipped.
pub open spec fn spec_settings(r: ReaderView) -> PResult<SectionKindView> {
    match spec_consume(r, r.remaining) {
        Ok((_, r2)) => Ok((SectionKindView::Settings, r2)),
        Err(e) => Err(e),
    }
}

pub struct SettingsParser;

impl SettingsParser {
    pub fn parse(&self, reader: &mut BinaryReader) -> (res: Result<SectionKind, ParseError>)
        ensures
            parsed_as(spec_settings(old(reader)@), res, final(reader)@),
            final(reader)@.remaining == 0,
    {
        let n = reader.get_remaining();
        reader.consume(n)?;
        Ok(SectionKind::Settings(SettingsData {}))
    }
}

} // verus!
