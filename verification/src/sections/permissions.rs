use vstd::prelude::*;

use crate::binary_reader::{repeat, lemma_repeat_err, spec_read_i32, spec_read_u16, BinaryReader, PResult, ReaderView};
use crate::error::ParseError;
use crate::sections::{parsed_as, SectionKind, SectionKindView};

verus! {

#[derive(Debug)]
pub struct PermissionsData {
    pub perms: Vec<i32>,
}

/// A permissions section: a 16-bit count, then that many 32-bit permissions.
pub open spec fn spec_permissions(r: ReaderView) -> PResult<SectionKindView> {
    match spec_read_u16(r) {
        Err(e) => Err(e),
        Ok((n, r1)) => match repeat(|x: ReaderView| spec_read_i32(x), r1, n as nat) {
            Ok((perms, r2)) => Ok((SectionKindView::Permissions(perms), r2)),
            Err(e) => Err(e),
        },
    }
}

pub struct PermissionsParser;

impl PermissionsParser {
    pub fn parse(&self, reader: &mut BinaryReader) -> (res: Result<SectionKind, ParseError>)
        ensures
            parsed_as(spec_permissions(old(reader)@), res, final(reader)@),
    {
        let n = reader.read_u16()?;
        let ghost r1 = reader@;
        let ghost p = |x: ReaderView| spec_read_i32(x);
        let mut perms: Vec<i32> = Vec::new();
        let mut i: u16 = 0;
        while i < n
            invariant
                i <= n,
                spec_read_u16(old(reader)@) == Ok::<(u16, ReaderView), ParseError>((n, r1)),
                p == (|x: ReaderView| spec_read_i32(x)),
                repeat(p, r1, i as nat) == Ok::<(Seq<i32>, ReaderView), ParseError>((perms@, reader@)),
            decreases n - i,
        {
            match reader.read_i32() {
                Ok(v) => perms.push(v),
                Err(e) => {
                    proof { lemma_repeat_err(p, r1, (i + 1) as nat, n as nat); }
                    return Err(e);
                },
            }
            i = i + 1;
        }
        Ok(SectionKind::Permissions(PermissionsData { perms }))
    }
}

} // verus!
