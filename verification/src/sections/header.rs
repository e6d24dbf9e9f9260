use vstd::prelude::*;

use crate::binary_reader::{pmap, spec_consume, spec_read_i32, spec_read_u32, spec_read_u8, BinaryReader, PResult, ReaderView};
use crate::error::ParseError;
use crate::text::{prefixed_decimal, spec_decimal};
use crate::sections::{parsed_as, SectionKind, SectionKindView};

verus! {

/// The Connect IQ version an application was built for.
#[derive(Debug, Clone, Copy, PartialEq, Eq, Structural)]
pub struct CIQVersion(pub u8, pub u8, pub u8);

impl CIQVersion {
    /// The version as `major.minor.micro`.
    pub open spec fn spec_text(self) -> Seq<char> {
        spec_decimal(self.0 as nat) + "."@ + spec_decimal(self.1 as nat) + "."@ + spec_decimal(self.2 as nat)
    }

    pub fn to_string(&self) -> (s: String)
        ensures
            s@ == self.spec_text(),
    {
        let mut s = prefixed_decimal("", self.0 as usize);
        let b = prefixed_decimal(".", self.1 as usize);
        s.append(b.as_str());
        let c = prefixed_decimal(".", self.2 as usize);
        s.append(c.as_str());
        proof { reveal_strlit(""); }
        assert(s@ =~= self.spec_text());
        s
    }
}

#[derive(Debug, Clone, Copy, PartialEq, Eq, Structural)]
pub struct GlanceOffsets {
    pub data: i32,
    pub code: i32,
}

#[derive(Debug, Clone, Copy, PartialEq, Eq, Structural)]
pub struct Flags {
    pub glance_support: bool,
    pub profiling_enabled: bool,
    pub sensor_pairing_support: bool,
}

#[derive(Debug, Clone, Copy, PartialEq, Eq, Structural)]
pub struct HeaderData {
    pub header_version: u8,
    pub ciqver: CIQVersion,
    pub background_offsets: Option<GlanceOffsets>,
    pub apptrial: Option<bool>,
    pub glance_offsets: Option<GlanceOffsets>,
    pub flags: Option<Flags>,
}

/// A pair of offsets: data, then code.
pub open spec fn spec_offsets(r: ReaderView) -> PResult<GlanceOffsets> {
    match spec_read_i32(r) {
        Ok((d, r1)) => pmap(spec_read_i32(r1), |c: i32| GlanceOffsets { data: d, code: c }),
        Err(e) => Err(e),
    }
}

/// The flags word: bit 0, bit 1 and bit 2.
pub open spec fn flags_of(v: u32) -> Flags {
    Flags {
        glance_support: v % 2 == 1,
        profiling_enabled: (v / 2) % 2 == 1,
        sensor_pairing_support: (v / 4) % 2 == 1,
    }
}

/// An optional part: present exactly when the window is not exhausted.
pub open spec fn spec_optional<T>(r: ReaderView, p: PResult<T>) -> PResult<Option<T>> {
    if r.remaining > 0 {
        match p {
            Ok((v, r2)) => Ok((Some(v), r2)),
            Err(e) => Err(e),
        }
    } else {
        Ok((None, r))
    }
}

/// The glance offsets follow eight skipped bytes; a failed skip is ignored.
pub open spec fn spec_glance(r: ReaderView) -> PResult<GlanceOffsets> {
    let r1 = match spec_consume(r, 8) {
        Ok((_, r2)) => r2,
        Err(_) => r,
    };
    spec_offsets(r1)
}

/// A header section: version, three version bytes, then optional parts for
/// as long as the section lasts: background offsets, the trial flag, glance
/// offsets and the flags word.
pub open spec fn spec_header(r: ReaderView) -> PResult<SectionKindView> {
    match spec_read_u8(r) {
        Err(e) => Err(e),
        Ok((ver, r1)) => match spec_read_u8(r1) {
            Err(e) => Err(e),
            Ok((a, r2)) => match spec_read_u8(r2) {
                Err(e) => Err(e),
                Ok((b, r3)) => match spec_read_u8(r3) {
                    Err(e) => Err(e),
                    Ok((c, r4)) => match spec_optional(r4, spec_offsets(r4)) {
                        Err(e) => Err(e),
                        Ok((bg, r5)) => match spec_optional(r5, pmap(spec_read_u8(r5), |t: u8| t != 0)) {
                            Err(e) => Err(e),
                            Ok((trial, r6)) => match spec_optional(r6, spec_glance(r6)) {
                                Err(e) => Err(e),
                                Ok((glance, r7)) => match spec_optional(r7, pmap(spec_read_u32(r7), |v: u32| flags_of(v))) {
                                    Err(e) => Err(e),
                                    Ok((flags, r8)) => Ok((
                                        SectionKindView::Header(HeaderData {
                                            header_version: ver,
                                            ciqver: CIQVersion(a, b, c),
                                            background_offsets: bg,
                                            apptrial: trial,
                                            glance_offsets: glance,
                                            flags: flags,
                                        }),
                                        r8,
                                    )),
                                },
                            },
                        },
                    },
                },
            },
        },
    }
}

fn read_offsets(reader: &mut BinaryReader) -> (res: Result<GlanceOffsets, ParseError>)
    ensures
        match spec_offsets(old(reader)@) {
            Ok((v, r)) => res == Ok::<GlanceOffsets, ParseError>(v) && final(reader)@ == r,
            Err(e) => res == Err::<GlanceOffsets, ParseError>(e),
        },
{
    let data = reader.read_i32()?;
    let code = reader.read_i32()?;
    Ok(GlanceOffsets { data, code })
}

pub struct HeaderParser;

impl HeaderParser {
    pub fn parse(&self, reader: &mut BinaryReader) -> (res: Result<SectionKind, ParseError>)
        ensures
            parsed_as(spec_header(old(reader)@), res, final(reader)@),
    {
        let header_version = reader.read_u8()?;
        let a = reader.read_u8()?;
        let b = reader.read_u8()?;
        let c = reader.read_u8()?;
        let background_offsets = if reader.has_remaining() {
            Some(read_offsets(reader)?)
        } else {
            None
        };
        let apptrial = if reader.has_remaining() {
            Some(reader.read_u8()? != 0)
        } else {
            None
        };
        let glance_offsets = if reader.has_remaining() {
            let _ = reader.consume(8);
            Some(read_offsets(reader)?)
        } else {
            None
        };
        let flags = if reader.has_remaining() {
            let v = reader.read_u32()?;
            Some(Flags {
                glance_support: v % 2 == 1,
                profiling_enabled: (v / 2) % 2 == 1,
                sensor_pairing_support: (v / 4) % 2 == 1,
            })
        } else {
            None
        };
        Ok(SectionKind::Header(HeaderData {
            header_version,
            ciqver: CIQVersion(a, b, c),
            background_offsets,
            apptrial,
            glance_offsets,
            flags,
        }))
    }
}

} // verus!
