use vstd::prelude::*;

use crate::binary_reader::{advance, i32_as_u64, i32_to_u64, spec_read_i32, spec_read_u32, spec_window, BinaryReader, ReaderView};
use crate::constants::{spec_section_magic, SectionMagic};
use crate::error::{Malformed, ParseError};
use crate::sections::code::{spec_code, CodeParser};
use crate::sections::data::{spec_data, DataParser};
use crate::sections::devsig::{spec_dev_sig, DevSigParser};
use crate::sections::entrypoints::{spec_entry_points, EntrypointParser};
use crate::sections::exceptions::{spec_exceptions, ExceptionParser};
use crate::sections::header::{spec_header, HeaderParser};
use crate::sections::imports::{spec_imports, ImportParser};
use crate::sections::pctolinenum::{spec_pc_to_line_num, PcToLineNumParser};
use crate::sections::permissions::{spec_permissions, PermissionsParser};
use crate::sections::resources::{spec_resources, ResourceParser};
use crate::sections::settings::{spec_settings, SettingsParser};
use crate::sections::symbols::{spec_symbols, SymbolParser};
use crate::sections::uuid::{spec_uuid, UUIDParser};
use crate::sections::{
    code, data, devsig, entrypoints, exceptions, header, imports, parsed_as, pctolinenum,
    permissions, resources, settings, spec_skip_rest, symbols, uuid, Section, SectionKind,
    SectionKindView, SectionView, UnkownSectionParser,
};
use crate::binary_reader::PResult;

verus! {

/// The content of a section whose magic is `magic`, read from its window.
#[verifier::opaque]
pub open spec fn spec_section(magic: SectionMagic, w: ReaderView) -> PResult<SectionKindView> {
    match magic {
        SectionMagic::UUID => spec_uuid(w),
        SectionMagic::Header => spec_header(w),
        SectionMagic::HeaderVersioned => spec_header(w),
        SectionMagic::EntryPoints => spec_entry_points(w),
        SectionMagic::Data => spec_data(w),
        SectionMagic::Code => spec_code(w),
        SectionMagic::DeveloperSignatureBlock => spec_dev_sig(w),
        SectionMagic::Permissions => spec_permissions(w),
        SectionMagic::ClassImport => spec_imports(w),
        SectionMagic::PcToLineNum => spec_pc_to_line_num(w),
        SectionMagic::Symbols => spec_symbols(w),
        SectionMagic::Settings => spec_settings(w),
        SectionMagic::ResourceBlock => spec_resources(w),
        SectionMagic::Exceptions => spec_exceptions(w),
        _ => spec_skip_rest(w),
    }
}

/// Parses the content of a section whose magic is `magic`.
pub fn parse_section(magic: SectionMagic, reader: &mut BinaryReader) -> (res: Result<SectionKind, ParseError>)
    ensures
        parsed_as(spec_section(magic, old(reader)@), res, final(reader)@),
{
    proof { reveal(spec_section); }
    match magic {
        SectionMagic::UUID => UUIDParser.parse(reader),
        SectionMagic::Header | SectionMagic::HeaderVersioned => HeaderParser.parse(reader),
        SectionMagic::EntryPoints => EntrypointParser.parse(reader),
        SectionMagic::Data => DataParser.parse(reader),
        SectionMagic::Code => CodeParser.parse(reader),
        SectionMagic::DeveloperSignatureBlock => DevSigParser.parse(reader),
        SectionMagic::Permissions => PermissionsParser.parse(reader),
        SectionMagic::ClassImport => ImportParser.parse(reader),
        SectionMagic::PcToLineNum => PcToLineNumParser.parse(reader),
        SectionMagic::Symbols => SymbolParser.parse(reader),
        SectionMagic::Settings => SettingsParser.parse(reader),
        SectionMagic::ResourceBlock => ResourceParser.parse(reader),
        SectionMagic::Exceptions => ExceptionParser.parse(reader),
        _ => UnkownSectionParser.parse(reader),
    }
}

/// A `.prg` image: sections for as long as eight bytes remain. Each is a
/// 32-bit magic and a 32-bit signed length, then a window of that length,
/// which the section's parser must read to its end.
pub open spec fn spec_program(r: ReaderView) -> Result<Seq<SectionView>, ParseError>
    decreases r.remaining,
{
    if r.remaining < 8 {
        Ok(seq![])
    } else {
        match spec_read_u32(r) {
            Err(_) => Err(ParseError::Malformed(Malformed::SectionHeader)),
            Ok((m, r1)) => match spec_read_i32(r1) {
                Err(_) => Err(ParseError::Malformed(Malformed::SectionHeader)),
                Ok((len, r2)) => {
                    let n = i32_as_u64(len);
                    if n > r2.remaining {
                        Err(ParseError::Malformed(Malformed::SectionLength))
                    } else {
                        match spec_section(spec_section_magic(m), spec_window(r2, n)) {
                            Err(e) => Err(e),
                            Ok((kind, wf)) => if wf.remaining != 0 {
                                Err(ParseError::Malformed(Malformed::SectionNotConsumed))
                            } else {
                                match spec_program(advance(r2, n)) {
                                    Err(e) => Err(e),
                                    Ok(rest) => Ok(
                                        seq![SectionView { address: r2.local_position as u64, length: len, kind: kind }]
                                            + rest,
                                    ),
                                }
                            },
                        }
                    }
                },
            },
        }
    }
}

/// The image is malformed: its parse meets a structural violation.
pub open spec fn is_malformed(res: Result<Seq<SectionView>, ParseError>) -> bool {
    res matches Err(ParseError::Malformed(_))
}

/// Reads the sections of a `.prg` image.
pub struct Parser<'a> {
    binaryreader: BinaryReader<'a>,
}

impl<'a> Parser<'a> {
    pub fn new(reader: BinaryReader<'a>) -> (p: Parser<'a>)
        ensures
            p.reader_view() == reader@,
    {
        Parser { binaryreader: reader }
    }

    /// The state of the reader that the parser reads from.
    pub closed spec fn reader_view(&self) -> ReaderView {
        self.binaryreader@
    }

    /// Parses every section; a malformed image is reported as
    /// `ParseError::Malformed`.
    pub fn try_parse(self) -> (res: Result<ProgramSections, ParseError>)
        ensures
            match spec_program(self.reader_view()) {
                Ok(s) => res matches Ok(ps) && ps@ == s,
                Err(e) => res matches Err(e2) && e2 == e,
            },
    {
        let mut reader = self.binaryreader;
        let mut sections: Vec<Section> = Vec::new();
        let ghost r0 = reader@;
        while reader.get_remaining() >= 8
            invariant
                r0 == self.reader_view(),
                match spec_program(reader@) {
                    Ok(rest) => spec_program(r0) == Ok::<Seq<SectionView>, ParseError>(sections@.map_values(|s: Section| s@) + rest),
                    Err(e) => spec_program(r0) == Err::<Seq<SectionView>, ParseError>(e),
                },
            decreases reader@.remaining,
        {
            reader.well_formed();
            let ghost before = reader@;
            let magic_val = match reader.read_u32() {
                Ok(v) => v,
                Err(_) => {
                    return Err(ParseError::Malformed(Malformed::SectionHeader));
                },
            };
            proof {
                assert(reader@.remaining < before.remaining);
                assert(spec_read_u32(before) == Ok::<(u32, ReaderView), ParseError>((magic_val, reader@)));
            }
            let ghost after_magic = reader@;
            let length = match reader.read_i32() {
                Ok(v) => v,
                Err(_) => {
                    return Err(ParseError::Malformed(Malformed::SectionHeader));
                },
            };
            proof {
                assert(spec_read_i32(after_magic) == Ok::<(i32, ReaderView), ParseError>((length, reader@)));
            }
            let address = reader.get_local_position();
            let magic = SectionMagic::from_u32(magic_val);
            let n = i32_to_u64(length);
            if n > reader.get_remaining() {
                return Err(ParseError::Malformed(Malformed::SectionLength));
            }
            let mut window = reader.mut_slice(n);
            let kind = parse_section(magic, &mut window)?;
            if window.get_remaining() != 0 {
                return Err(ParseError::Malformed(Malformed::SectionNotConsumed));
            }
            let ghost old_sections = sections@;
            let section = Section { address, length, kind };
            sections.push(section);
            proof {
                assert(sections@.map_values(|s: Section| s@) =~= old_sections.map_values(|s: Section| s@).push(section@));
                match spec_program(reader@) {
                    Ok(rest) => {
                        assert(old_sections.map_values(|s: Section| s@) + (seq![section@] + rest)
                            =~= sections@.map_values(|s: Section| s@) + rest);
                    },
                    Err(_) => {},
                }
            }
        }
        assert(sections@.map_values(|s: Section| s@) + seq![] =~= sections@.map_values(|s: Section| s@));
        Ok(ProgramSections(sections))
    }

    /// Parses every section of an image that is not malformed.
    pub fn parse(self) -> (res: Result<ProgramSections, ParseError>)
        requires
            !is_malformed(spec_program(self.reader_view())),
        ensures
            match spec_program(self.reader_view()) {
                Ok(s) => res matches Ok(ps) && ps@ == s,
                Err(e) => res matches Err(e2) && e2 == e,
            },
    {
        self.try_parse()
    }
}

/// Which kind of section a section is.
#[derive(Debug, Clone, Copy, PartialEq, Eq, Structural)]
pub enum SectionTag {
    UUID,
    Header,
    EntryPoints,
    Code,
    Data,
    DevSig,
    Permissions,
    Import,
    PcToLineNum,
    Symbols,
    Settings,
    Resources,
    Exceptions,
    UnknownSection,
}

/// The kind of an abstract section.
pub open spec fn spec_tag(k: SectionKindView) -> SectionTag {
    match k {
        SectionKindView::UUID(..) => SectionTag::UUID,
        SectionKindView::Header(..) => SectionTag::Header,
        SectionKindView::EntryPoints(..) => SectionTag::EntryPoints,
        SectionKindView::Code(..) => SectionTag::Code,
        SectionKindView::Data(..) => SectionTag::Data,
        SectionKindView::DevSig(..) => SectionTag::DevSig,
        SectionKindView::Permissions(..) => SectionTag::Permissions,
        SectionKindView::Import(..) => SectionTag::Import,
        SectionKindView::PcToLineNum(..) => SectionTag::PcToLineNum,
        SectionKindView::Symbols(..) => SectionTag::Symbols,
        SectionKindView::Settings => SectionTag::Settings,
        SectionKindView::Resources(..) => SectionTag::Resources,
        SectionKindView::Exceptions(..) => SectionTag::Exceptions,
        SectionKindView::UnknownSection => SectionTag::UnknownSection,
    }
}

/// The first section of kind `t` at or after position `k`.
pub open spec fn first_from(s: Seq<SectionView>, t: SectionTag, k: int) -> Option<int>
    decreases s.len() - k,
{
    if k < 0 || k >= s.len() {
        None
    } else if spec_tag(s[k].kind) == t {
        Some(k)
    } else {
        first_from(s, t, k + 1)
    }
}

/// The first section of kind `t`, if there is one.
pub open spec fn first_of(s: Seq<SectionView>, t: SectionTag) -> Option<int> {
    first_from(s, t, 0)
}

/// What `first_from` finds lies at or after `k`, has kind `t`, and no
/// section between `k` and it has kind `t`; where it finds nothing, no
/// section from `k` on has kind `t`.
pub proof fn lemma_first_from(s: Seq<SectionView>, t: SectionTag, k: int)
    requires
        0 <= k,
    ensures
        match first_from(s, t, k) {
            Some(i) => k <= i < s.len() && spec_tag(s[i].kind) == t
                && forall|j: int| k <= j < i ==> spec_tag(#[trigger] s[j].kind) != t,
            None => forall|j: int| k <= j < s.len() ==> spec_tag(#[trigger] s[j].kind) != t,
        },
    decreases s.len() - k,
{
    if k < s.len() && spec_tag(s[k].kind) != t {
        lemma_first_from(s, t, k + 1);
    }
}

impl SectionKind {
    pub fn tag(&self) -> (t: SectionTag)
        ensures
            t == spec_tag(self@),
    {
        match self {
            SectionKind::UUID(..) => SectionTag::UUID,
            SectionKind::Header(..) => SectionTag::Header,
            SectionKind::EntryPoints(..) => SectionTag::EntryPoints,
            SectionKind::Code(..) => SectionTag::Code,
            SectionKind::Data(..) => SectionTag::Data,
            SectionKind::DevSig(..) => SectionTag::DevSig,
            SectionKind::Permissions(..) => SectionTag::Permissions,
            SectionKind::Import(..) => SectionTag::Import,
            SectionKind::PcToLineNum(..) => SectionTag::PcToLineNum,
            SectionKind::Symbols(..) => SectionTag::Symbols,
            SectionKind::Settings(..) => SectionTag::Settings,
            SectionKind::Resources(..) => SectionTag::Resources,
            SectionKind::Exceptions(..) => SectionTag::Exceptions,
            SectionKind::UnknownSection() => SectionTag::UnknownSection,
        }
    }
}

/// The sections of a parsed image, in file order.
pub struct ProgramSections(Vec<Section>);

impl View for ProgramSections {
    type V = Seq<SectionView>;

    closed spec fn view(&self) -> Seq<SectionView> {
        self.0@.map_values(|s: Section| s@)
    }
}

impl ProgramSections {
    proof fn lemma_view_at(&self, i: int)
        requires
            0 <= i < self@.len(),
        ensures
            self@.len() == self.0@.len(),
            self@[i] == self.0@[i]@,
    {
    }

    /// The position of the first section of kind `t`.
    pub fn position(&self, t: SectionTag) -> (r: Option<usize>)
        ensures
            r is None <==> first_of(self@, t) is None,
            r matches Some(k) ==> first_of(self@, t) == Some(k as int) && k < self@.len()
                && spec_tag(self@[k as int].kind) == t,
    {
        let mut i: usize = 0;
        proof { lemma_first_from(self@, t, 0); }
        while i < self.0.len()
            invariant
                i <= self.0@.len(),
                self@.len() == self.0@.len(),
                first_of(self@, t) == first_from(self@, t, i as int),
            decreases self.0@.len() - i,
        {
            proof { lemma_first_from(self@, t, i as int); }
            if self.0[i].kind.tag() == t {
                return Some(i);
            }
            i = i + 1;
        }
        None
    }

    /// The first uuid section.
    pub fn get_uuid_section(&self) -> (r: Option<&uuid::UUID>)
        ensures
            match first_of(self@, SectionTag::UUID) {
                Some(i) => r matches Some(d) && self@[i].kind == SectionKindView::UUID(d@),
                None => r is None,
            },
    {
        match self.position(SectionTag::UUID) {
            Some(i) => {
                proof { self.lemma_view_at(i as int); }
                match &self.0[i].kind {
                    SectionKind::UUID(d) => Some(d),
                    _ => None,
                }
            },
            None => None,
        }
    }

    /// Removes the first uuid section and hands out its content.
    pub fn take_uuid_section(&mut self) -> (r: Option<uuid::UUID>)
        ensures
            match first_of(old(self)@, SectionTag::UUID) {
                Some(i) => r matches Some(d) && old(self)@[i].kind == SectionKindView::UUID(d@)
                    && final(self)@ == old(self)@.remove(i),
                None => r is None && final(self)@ == old(self)@,
            },
    {
        match self.position(SectionTag::UUID) {
            Some(i) => {
                proof {
                    self.lemma_view_at(i as int);
                    assert(self.0@.remove(i as int).map_values(|s: Section| s@) =~= self@.remove(i as int));
                }
                let section = self.0.remove(i);
                match section.kind {
                    SectionKind::UUID(d) => Some(d),
                    _ => None,
                }
            },
            None => None,
        }
    }

    /// The first header section.
    pub fn get_header_section(&self) -> (r: Option<&header::HeaderData>)
        ensures
            match first_of(self@, SectionTag::Header) {
                Some(i) => r matches Some(d) && self@[i].kind == SectionKindView::Header(*d),
                None => r is None,
            },
    {
        match self.position(SectionTag::Header) {
            Some(i) => {
                proof { self.lemma_view_at(i as int); }
                match &self.0[i].kind {
                    SectionKind::Header(d) => Some(d),
                    _ => None,
                }
            },
            None => None,
        }
    }

    /// Removes the first header section and hands out its content.
    pub fn take_header_section(&mut self) -> (r: Option<header::HeaderData>)
        ensures
            match first_of(old(self)@, SectionTag::Header) {
                Some(i) => r matches Some(d) && old(self)@[i].kind == SectionKindView::Header(d)
                    && final(self)@ == old(self)@.remove(i),
                None => r is None && final(self)@ == old(self)@,
            },
    {
        match self.position(SectionTag::Header) {
            Some(i) => {
                proof {
                    self.lemma_view_at(i as int);
                    assert(self.0@.remove(i as int).map_values(|s: Section| s@) =~= self@.remove(i as int));
                }
                let section = self.0.remove(i);
                match section.kind {
                    SectionKind::Header(d) => Some(d),
                    _ => None,
                }
            },
            None => None,
        }
    }

    /// The first entry points section.
    pub fn get_entry_points_section(&self) -> (r: Option<&entrypoints::EntryPointsData>)
        ensures
            match first_of(self@, SectionTag::EntryPoints) {
                Some(i) => r matches Some(d) && self@[i].kind == SectionKindView::EntryPoints(d.entrypoints@),
                None => r is None,
            },
    {
        match self.position(SectionTag::EntryPoints) {
            Some(i) => {
                proof { self.lemma_view_at(i as int); }
                match &self.0[i].kind {
                    SectionKind::EntryPoints(d) => Some(d),
                    _ => None,
                }
            },
            None => None,
        }
    }

    /// Removes the first entry points section and hands out its content.
    pub fn take_entry_points_section(&mut self) -> (r: Option<entrypoints::EntryPointsData>)
        ensures
            match first_of(old(self)@, SectionTag::EntryPoints) {
                Some(i) => r matches Some(d) && old(self)@[i].kind == SectionKindView::EntryPoints(d.entrypoints@)
                    && final(self)@ == old(self)@.remove(i),
                None => r is None && final(self)@ == old(self)@,
            },
    {
        match self.position(SectionTag::EntryPoints) {
            Some(i) => {
                proof {
                    self.lemma_view_at(i as int);
                    assert(self.0@.remove(i as int).map_values(|s: Section| s@) =~= self@.remove(i as int));
                }
                let section = self.0.remove(i);
                match section.kind {
                    SectionKind::EntryPoints(d) => Some(d),
                    _ => None,
                }
            },
            None => None,
        }
    }

    /// The first code section.
    pub fn get_code_section(&self) -> (r: Option<&code::CodeData>)
        ensures
            match first_of(self@, SectionTag::Code) {
                Some(i) => r matches Some(d) && self@[i].kind == SectionKindView::Code(d@),
                None => r is None,
            },
    {
        match self.position(SectionTag::Code) {
            Some(i) => {
                proof { self.lemma_view_at(i as int); }
                match &self.0[i].kind {
                    SectionKind::Code(d) => Some(d),
                    _ => None,
                }
            },
            None => None,
        }
    }

    /// Removes the first code section and hands out its content.
    pub fn take_code_section(&mut self) -> (r: Option<code::CodeData>)
        ensures
            match first_of(old(self)@, SectionTag::Code) {
                Some(i) => r matches Some(d) && old(self)@[i].kind == SectionKindView::Code(d@)
                    && final(self)@ == old(self)@.remove(i),
                None => r is None && final(self)@ == old(self)@,
            },
    {
        match self.position(SectionTag::Code) {
            Some(i) => {
                proof {
                    self.lemma_view_at(i as int);
                    assert(self.0@.remove(i as int).map_values(|s: Section| s@) =~= self@.remove(i as int));
                }
                let section = self.0.remove(i);
                match section.kind {
                    SectionKind::Code(d) => Some(d),
                    _ => None,
                }
            },
            None => None,
        }
    }

    /// The first data section.
    pub fn get_data_section(&self) -> (r: Option<&data::DataData>)
        ensures
            match first_of(self@, SectionTag::Data) {
                Some(i) => r matches Some(d) && self@[i].kind == SectionKindView::Data(data::data_view(d@)),
                None => r is None,
            },
    {
        match self.position(SectionTag::Data) {
            Some(i) => {
                proof { self.lemma_view_at(i as int); }
                match &self.0[i].kind {
                    SectionKind::Data(d) => Some(d),
                    _ => None,
                }
            },
            None => None,
        }
    }

    /// Removes the first data section and hands out its content.
    pub fn take_data_section(&mut self) -> (r: Option<data::DataData>)
        ensures
            match first_of(old(self)@, SectionTag::Data) {
                Some(i) => r matches Some(d) && old(self)@[i].kind == SectionKindView::Data(data::data_view(d@))
                    && final(self)@ == old(self)@.remove(i),
                None => r is None && final(self)@ == old(self)@,
            },
    {
        match self.position(SectionTag::Data) {
            Some(i) => {
                proof {
                    self.lemma_view_at(i as int);
                    assert(self.0@.remove(i as int).map_values(|s: Section| s@) =~= self@.remove(i as int));
                }
                let section = self.0.remove(i);
                match section.kind {
                    SectionKind::Data(d) => Some(d),
                    _ => None,
                }
            },
            None => None,
        }
    }

    /// The first dev sig section.
    pub fn get_dev_sig_section(&self) -> (r: Option<&Box<devsig::DevSigData>>)
        ensures
            match first_of(self@, SectionTag::DevSig) {
                Some(i) => r matches Some(d) && self@[i].kind == SectionKindView::DevSig(**d),
                None => r is None,
            },
    {
        match self.position(SectionTag::DevSig) {
            Some(i) => {
                proof { self.lemma_view_at(i as int); }
                match &self.0[i].kind {
                    SectionKind::DevSig(d) => Some(d),
                    _ => None,
                }
            },
            None => None,
        }
    }

    /// Removes the first dev sig section and hands out its content.
    pub fn take_dev_sig_section(&mut self) -> (r: Option<Box<devsig::DevSigData>>)
        ensures
            match first_of(old(self)@, SectionTag::DevSig) {
                Some(i) => r matches Some(d) && old(self)@[i].kind == SectionKindView::DevSig(*d)
                    && final(self)@ == old(self)@.remove(i),
                None => r is None && final(self)@ == old(self)@,
            },
    {
        match self.position(SectionTag::DevSig) {
            Some(i) => {
                proof {
                    self.lemma_view_at(i as int);
                    assert(self.0@.remove(i as int).map_values(|s: Section| s@) =~= self@.remove(i as int));
                }
                let section = self.0.remove(i);
                match section.kind {
                    SectionKind::DevSig(d) => Some(d),
                    _ => None,
                }
            },
            None => None,
        }
    }

    /// The first permissions section.
    pub fn get_permissions_section(&self) -> (r: Option<&permissions::PermissionsData>)
        ensures
            match first_of(self@, SectionTag::Permissions) {
                Some(i) => r matches Some(d) && self@[i].kind == SectionKindView::Permissions(d.perms@),
                None => r is None,
            },
    {
        match self.position(SectionTag::Permissions) {
            Some(i) => {
                proof { self.lemma_view_at(i as int); }
                match &self.0[i].kind {
                    SectionKind::Permissions(d) => Some(d),
                    _ => None,
                }
            },
            None => None,
        }
    }

    /// Removes the first permissions section and hands out its content.
    pub fn take_permissions_section(&mut self) -> (r: Option<permissions::PermissionsData>)
        ensures
            match first_of(old(self)@, SectionTag::Permissions) {
                Some(i) => r matches Some(d) && old(self)@[i].kind == SectionKindView::Permissions(d.perms@)
                    && final(self)@ == old(self)@.remove(i),
                None => r is None && final(self)@ == old(self)@,
            },
    {
        match self.position(SectionTag::Permissions) {
            Some(i) => {
                proof {
                    self.lemma_view_at(i as int);
                    assert(self.0@.remove(i as int).map_values(|s: Section| s@) =~= self@.remove(i as int));
                }
                let section = self.0.remove(i);
                match section.kind {
                    SectionKind::Permissions(d) => Some(d),
                    _ => None,
                }
            },
            None => None,
        }
    }

    /// The first import section.
    pub fn get_import_section(&self) -> (r: Option<&imports::ImportData>)
        ensures
            match first_of(self@, SectionTag::Import) {
                Some(i) => r matches Some(d) && self@[i].kind == SectionKindView::Import(d.links@),
                None => r is None,
            },
    {
        match self.position(SectionTag::Import) {
            Some(i) => {
                proof { self.lemma_view_at(i as int); }
                match &self.0[i].kind {
                    SectionKind::Import(d) => Some(d),
                    _ => None,
                }
            },
            None => None,
        }
    }

    /// Removes the first import section and hands out its content.
    pub fn take_import_section(&mut self) -> (r: Option<imports::ImportData>)
        ensures
            match first_of(old(self)@, SectionTag::Import) {
                Some(i) => r matches Some(d) && old(self)@[i].kind == SectionKindView::Import(d.links@)
                    && final(self)@ == old(self)@.remove(i),
                None => r is None && final(self)@ == old(self)@,
            },
    {
        match self.position(SectionTag::Import) {
            Some(i) => {
                proof {
                    self.lemma_view_at(i as int);
                    assert(self.0@.remove(i as int).map_values(|s: Section| s@) =~= self@.remove(i as int));
                }
                let section = self.0.remove(i);
                match section.kind {
                    SectionKind::Import(d) => Some(d),
                    _ => None,
                }
            },
            None => None,
        }
    }

    /// The first pc to line num section.
    pub fn get_pc_to_line_num_section(&self) -> (r: Option<&pctolinenum::PcToLineNumData>)
        ensures
            match first_of(self@, SectionTag::PcToLineNum) {
                Some(i) => r matches Some(d) && self@[i].kind == SectionKindView::PcToLineNum(d@),
                None => r is None,
            },
    {
        match self.position(SectionTag::PcToLineNum) {
            Some(i) => {
                proof { self.lemma_view_at(i as int); }
                match &self.0[i].kind {
                    SectionKind::PcToLineNum(d) => Some(d),
                    _ => None,
                }
            },
            None => None,
        }
    }

    /// Removes the first pc to line num section and hands out its content.
    pub fn take_pc_to_line_num_section(&mut self) -> (r: Option<pctolinenum::PcToLineNumData>)
        ensures
            match first_of(old(self)@, SectionTag::PcToLineNum) {
                Some(i) => r matches Some(d) && old(self)@[i].kind == SectionKindView::PcToLineNum(d@)
                    && final(self)@ == old(self)@.remove(i),
                None => r is None && final(self)@ == old(self)@,
            },
    {
        match self.position(SectionTag::PcToLineNum) {
            Some(i) => {
                proof {
                    self.lemma_view_at(i as int);
                    assert(self.0@.remove(i as int).map_values(|s: Section| s@) =~= self@.remove(i as int));
                }
                let section = self.0.remove(i);
                match section.kind {
                    SectionKind::PcToLineNum(d) => Some(d),
                    _ => None,
                }
            },
            None => None,
        }
    }

    /// The first symbols section.
    pub fn get_symbols_section(&self) -> (r: Option<&symbols::SymbolData>)
        ensures
            match first_of(self@, SectionTag::Symbols) {
                Some(i) => r matches Some(d) && self@[i].kind == SectionKindView::Symbols(symbols::symbols_view(d@)),
                None => r is None,
            },
    {
        match self.position(SectionTag::Symbols) {
            Some(i) => {
                proof { self.lemma_view_at(i as int); }
                match &self.0[i].kind {
                    SectionKind::Symbols(d) => Some(d),
                    _ => None,
                }
            },
            None => None,
        }
    }

    /// Removes the first symbols section and hands out its content.
    pub fn take_symbols_section(&mut self) -> (r: Option<symbols::SymbolData>)
        ensures
            match first_of(old(self)@, SectionTag::Symbols) {
                Some(i) => r matches Some(d) && old(self)@[i].kind == SectionKindView::Symbols(symbols::symbols_view(d@))
                    && final(self)@ == old(self)@.remove(i),
                None => r is None && final(self)@ == old(self)@,
            },
    {
        match self.position(SectionTag::Symbols) {
            Some(i) => {
                proof {
                    self.lemma_view_at(i as int);
                    assert(self.0@.remove(i as int).map_values(|s: Section| s@) =~= self@.remove(i as int));
                }
                let section = self.0.remove(i);
                match section.kind {
                    SectionKind::Symbols(d) => Some(d),
                    _ => None,
                }
            },
            None => None,
        }
    }

    /// The first settings section.
    pub fn get_settings_section(&self) -> (r: Option<&settings::SettingsData>)
        ensures
            match first_of(self@, SectionTag::Settings) {
                Some(i) => r is Some,
                None => r is None,
            },
    {
        match self.position(SectionTag::Settings) {
            Some(i) => {
                proof { self.lemma_view_at(i as int); }
                match &self.0[i].kind {
                    SectionKind::Settings(d) => Some(d),
                    _ => None,
                }
            },
            None => None,
        }
    }

    /// Removes the first settings section and hands out its content.
    pub fn take_settings_section(&mut self) -> (r: Option<settings::SettingsData>)
        ensures
            match first_of(old(self)@, SectionTag::Settings) {
                Some(i) => r is Some && final(self)@ == old(self)@.remove(i),
                None => r is None && final(self)@ == old(self)@,
            },
    {
        match self.position(SectionTag::Settings) {
            Some(i) => {
                proof {
                    self.lemma_view_at(i as int);
                    assert(self.0@.remove(i as int).map_values(|s: Section| s@) =~= self@.remove(i as int));
                }
                let section = self.0.remove(i);
                match section.kind {
                    SectionKind::Settings(d) => Some(d),
                    _ => None,
                }
            },
            None => None,
        }
    }

    /// The first resources section.
    pub fn get_resources_section(&self) -> (r: Option<&resources::ResourceData>)
        ensures
            match first_of(self@, SectionTag::Resources) {
                Some(i) => r matches Some(d) && self@[i].kind == SectionKindView::Resources(d.spec_langs()),
                None => r is None,
            },
    {
        match self.position(SectionTag::Resources) {
            Some(i) => {
                proof { self.lemma_view_at(i as int); }
                match &self.0[i].kind {
                    SectionKind::Resources(d) => Some(d),
                    _ => None,
                }
            },
            None => None,
        }
    }

    /// Removes the first resources section and hands out its content.
    pub fn take_resources_section(&mut self) -> (r: Option<resources::ResourceData>)
        ensures
            match first_of(old(self)@, SectionTag::Resources) {
                Some(i) => r matches Some(d) && old(self)@[i].kind == SectionKindView::Resources(d.spec_langs())
                    && final(self)@ == old(self)@.remove(i),
                None => r is None && final(self)@ == old(self)@,
            },
    {
        match self.position(SectionTag::Resources) {
            Some(i) => {
                proof {
                    self.lemma_view_at(i as int);
                    assert(self.0@.remove(i as int).map_values(|s: Section| s@) =~= self@.remove(i as int));
                }
                let section = self.0.remove(i);
                match section.kind {
                    SectionKind::Resources(d) => Some(d),
                    _ => None,
                }
            },
            None => None,
        }
    }

    /// The first exceptions section.
    pub fn get_exceptions_section(&self) -> (r: Option<&exceptions::ExceptionsData>)
        ensures
            match first_of(self@, SectionTag::Exceptions) {
                Some(i) => r matches Some(d) && self@[i].kind == SectionKindView::Exceptions(d@),
                None => r is None,
            },
    {
        match self.position(SectionTag::Exceptions) {
            Some(i) => {
                proof { self.lemma_view_at(i as int); }
                match &self.0[i].kind {
                    SectionKind::Exceptions(d) => Some(d),
                    _ => None,
                }
            },
            None => None,
        }
    }

    /// Removes the first exceptions section and hands out its content.
    pub fn take_exceptions_section(&mut self) -> (r: Option<exceptions::ExceptionsData>)
        ensures
            match first_of(old(self)@, SectionTag::Exceptions) {
                Some(i) => r matches Some(d) && old(self)@[i].kind == SectionKindView::Exceptions(d@)
                    && final(self)@ == old(self)@.remove(i),
                None => r is None && final(self)@ == old(self)@,
            },
    {
        match self.position(SectionTag::Exceptions) {
            Some(i) => {
                proof {
                    self.lemma_view_at(i as int);
                    assert(self.0@.remove(i as int).map_values(|s: Section| s@) =~= self@.remove(i as int));
                }
                let section = self.0.remove(i);
                match section.kind {
                    SectionKind::Exceptions(d) => Some(d),
                    _ => None,
                }
            },
            None => None,
        }
    }
}

} // verus!
