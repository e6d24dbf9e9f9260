use vstd::prelude::*;

use crate::addressed_container::ContainerView;
use crate::binary_reader::{spec_consume, BinaryReader, PResult, ReaderView};
use crate::error::ParseError;
use crate::opcodes::Opcode;

pub mod code;
pub mod data;
pub mod devsig;
pub mod entrypoints;
pub mod exceptions;
pub mod header;
pub mod imports;
pub mod pctolinenum;
pub mod permissions;
pub mod resources;
pub mod settings;
pub mod symbols;
pub mod uuid;

verus! {

/// A parsed section.
pub enum SectionKind {
    UUID(uuid::UUID),
    Header(header::HeaderData),
    EntryPoints(entrypoints::EntryPointsData),
    Code(code::CodeData),
    Data(data::DataData),
    DevSig(Box<devsig::DevSigData>),
    Permissions(permissions::PermissionsData),
    Import(imports::ImportData),
    PcToLineNum(pctolinenum::PcToLineNumData),
    Symbols(symbols::SymbolData),
    Settings(settings::SettingsData),
    Resources(resources::ResourceData),
    Exceptions(exceptions::ExceptionsData),
    UnknownSection(),
}

/// The abstract value of a parsed section.
pub enum SectionKindView {
    UUID(Seq<u8>),
    Header(header::HeaderData),
    EntryPoints(Seq<entrypoints::EntryPoint>),
    Code(ContainerView<Opcode>),
    Data(Map<u32, data::DataEntryView>),
    DevSig(devsig::DevSigData),
    Permissions(Seq<i32>),
    Import(Seq<imports::Link>),
    PcToLineNum(Seq<pctolinenum::PcToLineNumEntry>),
    Symbols(Map<u32, Seq<char>>),
    Settings,
    Resources(Map<u32, Map<u32, Seq<char>>>),
    Exceptions(Seq<exceptions::TableEntry>),
    UnknownSection,
}

impl View for SectionKind {
    type V = SectionKindView;

    open spec fn view(&self) -> SectionKindView {
        match self {
            SectionKind::UUID(u) => SectionKindView::UUID(u@),
            SectionKind::Header(h) => SectionKindView::Header(*h),
            SectionKind::EntryPoints(e) => SectionKindView::EntryPoints(e.entrypoints@),
            SectionKind::Code(c) => SectionKindView::Code(c@),
            SectionKind::Data(d) => SectionKindView::Data(data::data_view(d@)),
            SectionKind::DevSig(d) => SectionKindView::DevSig(**d),
            SectionKind::Permissions(p) => SectionKindView::Permissions(p.perms@),
            SectionKind::Import(i) => SectionKindView::Import(i.links@),
            SectionKind::PcToLineNum(p) => SectionKindView::PcToLineNum(p@),
            SectionKind::Symbols(s) => SectionKindView::Symbols(symbols::symbols_view(s@)),
            SectionKind::Settings(_) => SectionKindView::Settings,
            SectionKind::Resources(r) => SectionKindView::Resources(r.spec_langs()),
            SectionKind::Exceptions(e) => SectionKindView::Exceptions(e@),
            SectionKind::UnknownSection() => SectionKindView::UnknownSection,
        }
    }
}

/// A section: the window position of its content, its declared length, and
/// what it holds.
pub struct Section {
    pub address: u64,
    pub length: i32,
    pub kind: SectionKind,
}

/// The abstract value of a section.
pub struct SectionView {
    pub address: u64,
    pub length: i32,
    pub kind: SectionKindView,
}

impl View for Section {
    type V = SectionView;

    open spec fn view(&self) -> SectionView {
        SectionView { address: self.address, length: self.length, kind: self.kind@ }
    }
}

/// `res` and the reader's final state `fin` are what the parse step `spec` gives.
pub open spec fn parsed_as(spec: PResult<SectionKindView>, res: Result<SectionKind, ParseError>, fin: ReaderView) -> bool {
    match spec {
        Ok((k, r)) => res matches Ok(s) && s@ == k && fin == r,
        Err(e) => res == Err::<SectionKind, ParseError>(e),
    }
}

/// Skipping the rest of a window never fails and exhausts it.
pub open spec fn spec_skip_rest(r: ReaderView) -> PResult<SectionKindView> {
    match spec_consume(r, r.remaining) {
        Ok((_, r2)) => Ok((SectionKindView::UnknownSection, r2)),
        Err(e) => Err(e),
    }
}

/// The parser of sections whose magic is not understood: it skips them.
pub struct UnkownSectionParser;

impl UnkownSectionParser {
    pub fn parse(&self, reader: &mut BinaryReader) -> (res: Result<SectionKind, ParseError>)
        ensures
            parsed_as(spec_skip_rest(old(reader)@), res, final(reader)@),
            final(reader)@.remaining == 0,
    {
        let n = reader.get_remaining();
        reader.consume(n)?;
        Ok(SectionKind::UnknownSection())
    }
}

} // verus!
