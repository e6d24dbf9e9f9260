use vstd::prelude::*;

use crate::addressed_container::{AddressedContainer, ContainerView};
use crate::binary_reader::{BinaryReader, PResult, ReaderView};
use crate::error::{Malformed, ParseError};
use crate::opcodes::{spec_parse_stream, Opcode};
use crate::sections::{parsed_as, SectionKind, SectionKindView};

verus! {

/// The program's instructions at their code addresses.
pub type CodeData = AddressedContainer<Opcode>;

/// A code section: an instruction stream, which must decode without error.
pub open spec fn spec_code(r: ReaderView) -> PResult<SectionKindView> {
    match spec_parse_stream(r) {
        Ok(((ops, addrs), r2)) => Ok((SectionKindView::Code(ContainerView { items: ops, addrs: addrs }), r2)),
        Err(_) => Err(ParseError::Malformed(Malformed::CodeStream)),
    }
}

pub struct CodeParser;

impl CodeParser {
    pub fn parse(&self, reader: &mut BinaryReader) -> (res: Result<SectionKind, ParseError>)
        ensures
            parsed_as(spec_code(old(reader)@), res, final(reader)@),
    {
        match Opcode::parse_stream(reader) {
            Ok(opcodes) => Ok(SectionKind::Code(opcodes)),
            Err(_) => Err(ParseError::Malformed(Malformed::CodeStream)),
        }
    }
}

} // verus!
