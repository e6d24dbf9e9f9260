use vstd::prelude::*;

use crate::binary_reader::{spec_read_bytes, spec_read_i32, BinaryReader, PResult, ReaderView};
use crate::error::ParseError;
use crate::sections::{parsed_as, SectionKind, SectionKindView};

verus! {

/// The developer signature.
#[derive(Debug, Clone, Copy)]
pub struct DevSigData {
    /// SHA-1 signature.
    pub sig1: [u8; 512],
    /// SHA-512 signature, where present.
    pub sig2: Option<[u8; 512]>,
    pub modulus: [u8; 512],
    pub exponent: i32,
}

/// The 512-byte array that holds the given bytes.
pub open spec fn spec_block512(b: Seq<u8>) -> [u8; 512] {
    choose|a: [u8; 512]| a@ == b
}

/// A developer signature section: the first signature, the modulus, the
/// exponent, and a second signature when at least 512 bytes remain.
pub open spec fn spec_dev_sig(r: ReaderView) -> PResult<SectionKindView> {
    match spec_read_bytes(r, 512) {
        Err(e) => Err(e),
        Ok((sig1, r1)) => match spec_read_bytes(r1, 512) {
            Err(e) => Err(e),
            Ok((modulus, r2)) => match spec_read_i32(r2) {
                Err(e) => Err(e),
                Ok((exponent, r3)) => if r3.remaining >= 512 {
                    match spec_read_bytes(r3, 512) {
                        Err(e) => Err(e),
                        Ok((sig2, r4)) => Ok((
                            SectionKindView::DevSig(DevSigData {
                                sig1: spec_block512(sig1),
                                sig2: Some(spec_block512(sig2)),
                                modulus: spec_block512(modulus),
                                exponent: exponent,
                            }),
                            r4,
                        )),
                    }
                } else {
                    Ok((
                        SectionKindView::DevSig(DevSigData {
                            sig1: spec_block512(sig1),
                            sig2: None,
                            modulus: spec_block512(modulus),
                            exponent: exponent,
                        }),
                        r3,
                    ))
                },
            },
        },
    }
}

/// Arrays are determined by their bytes.
proof fn lemma_block512(a: [u8; 512])
    ensures
        spec_block512(a@) == a,
{
    assert(spec_block512(a@)@ == a@);
    assert(spec_block512(a@) =~= a);
}

pub struct DevSigParser;

impl DevSigParser {
    pub fn parse(&self, reader: &mut BinaryReader) -> (res: Result<SectionKind, ParseError>)
        ensures
            parsed_as(spec_dev_sig(old(reader)@), res, final(reader)@),
    {
        let sig1 = reader.read_bytes::<512>()?;
        let modulus = reader.read_bytes::<512>()?;
        let exponent = reader.read_i32()?;
        proof {
            lemma_block512(sig1);
            lemma_block512(modulus);
        }
        let sig2 = if reader.get_remaining() >= 512 {
            let s = reader.read_bytes::<512>()?;
            proof { lemma_block512(s); }
            Some(s)
        } else {
            None
        };
        Ok(SectionKind::DevSig(Box::new(DevSigData { sig1, sig2, modulus, exponent })))
    }
}

} // verus!
