use vstd::prelude::*;

use crate::binary_reader::{pmap, repeat, lemma_repeat_err, spec_read_i32, spec_read_u16, BinaryReader, PResult, ReaderView};
use crate::error::ParseError;
use crate::sections::{parsed_as, SectionKind, SectionKindView};

verus! {

/// An entry of the link table.
#[derive(Debug, Clone, Copy, PartialEq, Eq, Structural)]
pub struct Link {
    pub module: i32,
    pub link: i32,
}

#[derive(Debug)]
pub struct ImportData {
    pub links: Vec<Link>,
}

/// One link: module, then link.
pub open spec fn spec_link(r: ReaderView) -> PResult<Link> {
    match spec_read_i32(r) {
        Err(e) => Err(e),
        Ok((m, r1)) => pmap(spec_read_i32(r1), |l: i32| Link { module: m, link: l }),
    }
}

/// An import (link table) section: a 16-bit count, then that many links.
pub open spec fn spec_imports(r: ReaderView) -> PResult<SectionKindView> {
    match spec_read_u16(r) {
        Err(e) => Err(e),
        Ok((n, r1)) => match repeat(|x: ReaderView| spec_link(x), r1, n as nat) {
            Ok((links, r2)) => Ok((SectionKindView::Import(links), r2)),
            Err(e) => Err(e),
        },
    }
}

fn read_link(reader: &mut BinaryReader) -> (res: Result<Link, ParseError>)
    ensures
        match spec_link(old(reader)@) {
            Ok((v, r)) => res == Ok::<Link, ParseError>(v) && final(reader)@ == r,
            Err(e) => res == Err::<Link, ParseError>(e),
        },
{
    let module = reader.read_i32()?;
    let link = reader.read_i32()?;
    Ok(Link { module, link })
}

pub struct ImportParser;

impl ImportParser {
    pub fn parse(&self, reader: &mut BinaryReader) -> (res: Result<SectionKind, ParseError>)
        ensures
            parsed_as(spec_imports(old(reader)@), res, final(reader)@),
    {
        let n = reader.read_u16()?;
        let ghost r1 = reader@;
        let ghost p = |x: ReaderView| spec_link(x);
        let mut links: Vec<Link> = Vec::new();
        let mut i: u16 = 0;
        while i < n
            invariant
                i <= n,
                spec_read_u16(old(reader)@) == Ok::<(u16, ReaderView), ParseError>((n, r1)),
                p == (|x: ReaderView| spec_link(x)),
                repeat(p, r1, i as nat) == Ok::<(Seq<Link>, ReaderView), ParseError>((links@, reader@)),
            decreases n - i,
        {
            match read_link(reader) {
                Ok(v) => links.push(v),
                Err(e) => {
                    proof { lemma_repeat_err(p, r1, (i + 1) as nat, n as nat); }
                    return Err(e);
                },
            }
            i = i + 1;
        }
        Ok(SectionKind::Import(ImportData { links }))
    }
}

} // verus!
