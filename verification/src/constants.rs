use vstd::prelude::*;

use crate::text::{quoted_text, prefixed_decimal, prefixed_upper_hex, spec_decimal, spec_escape_default, spec_hex};
use crate::traits::{AddressResolver, DisplayWithResolver, ResolvedNames};

verus! {

/// The magic number that opens each section of a `.prg` image.
#[derive(Debug, Clone, Copy, PartialEq, Eq, Structural)]
pub enum SectionMagic {
    UUID,
    Header,
    /// The header of images whose resources carry ids (5.0.0 or greater).
    HeaderVersioned,
    EntryPoints,
    Permissions,
    Data,
    Code,
    ExtendedCode,
    Debug,
    PcToLineNum,
    ClassImport,
    Exceptions,
    ExtendedExceptions,
    Symbols,
    Settings,
    AppUnlock,
    ResourceBlock,
    BackgroundResourceBlock,
    GlanceResourceBlock,
    AppStoreSignatureBlock,
    DeveloperSignatureBlock,
    StringResourceSymbols,
    Complications,
    WatchfaceConfig,
    NativeLibrary,
    Unknown,
}
/// The section magic that a 32-bit value denotes; `Unknown` for any other value.
pub open spec fn spec_section_magic(v: u32) -> SectionMagic {
    if v == 0x0000001D {
        SectionMagic::UUID
    } else if v == 0xD000D000 {
        SectionMagic::Header
    } else if v == 0xD000D00D {
        SectionMagic::HeaderVersioned
    } else if v == 0x6060C0DE {
        SectionMagic::EntryPoints
    } else if v == 0x6000DB01 {
        SectionMagic::Permissions
    } else if v == 0xDA7ABABE {
        SectionMagic::Data
    } else if v == 0xC0DEBABE {
        SectionMagic::Code
    } else if v == 0xC0DE10AD {
        SectionMagic::ExtendedCode
    } else if v == 0xD0000D1E {
        SectionMagic::Debug
    } else if v == 0xC0DE7AB1 {
        SectionMagic::PcToLineNum
    } else if v == 0xC1A557B1 {
        SectionMagic::ClassImport
    } else if v == 0x0ECE7105 {
        SectionMagic::Exceptions
    } else if v == 0xEECE7105 {
        SectionMagic::ExtendedExceptions
    } else if v == 0x5717B015 {
        SectionMagic::Symbols
    } else if v == 0x5E771465 {
        SectionMagic::Settings
    } else if v == 0xD011AAA5 {
        SectionMagic::AppUnlock
    } else if v == 0xF00D600D {
        SectionMagic::ResourceBlock
    } else if v == 0xDEFECA7E {
        SectionMagic::BackgroundResourceBlock
    } else if v == 0xD00DFACE {
        SectionMagic::GlanceResourceBlock
    } else if v == 0x00005161 {
        SectionMagic::AppStoreSignatureBlock
    } else if v == 0xE1C0DE12 {
        SectionMagic::DeveloperSignatureBlock
    } else if v == 0xBAADA555 {
        SectionMagic::StringResourceSymbols
    } else if v == 0xFACEDA7A {
        SectionMagic::Complications
    } else if v == 0xFACE00FF {
        SectionMagic::WatchfaceConfig
    } else if v == 0xE1FFB10B {
        SectionMagic::NativeLibrary
    } else {
        SectionMagic::Unknown
    }
}

impl SectionMagic {
    /// Decodes a section magic; values that denote no section give `Unknown`.
    pub fn from_u32(v: u32) -> (m: SectionMagic)
        ensures
            m == spec_section_magic(v),
    {
        if v == 0x0000001D {
            SectionMagic::UUID
        } else if v == 0xD000D000 {
            SectionMagic::Header
        } else if v == 0xD000D00D {
            SectionMagic::HeaderVersioned
        } else if v == 0x6060C0DE {
            SectionMagic::EntryPoints
        } else if v == 0x6000DB01 {
            SectionMagic::Permissions
        } else if v == 0xDA7ABABE {
            SectionMagic::Data
        } else if v == 0xC0DEBABE {
            SectionMagic::Code
        } else if v == 0xC0DE10AD {
            SectionMagic::ExtendedCode
        } else if v == 0xD0000D1E {
            SectionMagic::Debug
        } else if v == 0xC0DE7AB1 {
            SectionMagic::PcToLineNum
        } else if v == 0xC1A557B1 {
            SectionMagic::ClassImport
        } else if v == 0x0ECE7105 {
            SectionMagic::Exceptions
        } else if v == 0xEECE7105 {
            SectionMagic::ExtendedExceptions
        } else if v == 0x5717B015 {
            SectionMagic::Symbols
        } else if v == 0x5E771465 {
            SectionMagic::Settings
        } else if v == 0xD011AAA5 {
            SectionMagic::AppUnlock
        } else if v == 0xF00D600D {
            SectionMagic::ResourceBlock
        } else if v == 0xDEFECA7E {
            SectionMagic::BackgroundResourceBlock
        } else if v == 0xD00DFACE {
            SectionMagic::GlanceResourceBlock
        } else if v == 0x00005161 {
            SectionMagic::AppStoreSignatureBlock
        } else if v == 0xE1C0DE12 {
            SectionMagic::DeveloperSignatureBlock
        } else if v == 0xBAADA555 {
            SectionMagic::StringResourceSymbols
        } else if v == 0xFACEDA7A {
            SectionMagic::Complications
        } else if v == 0xFACE00FF {
            SectionMagic::WatchfaceConfig
        } else if v == 0xE1FFB10B {
            SectionMagic::NativeLibrary
        } else {
            SectionMagic::Unknown
        }
    }
}

/// The size of each address region.
pub const REGION_SIZE: u32 = 0x1000_0000;

/// An address that has a position in the global address space.
pub trait GlobalAddress {
    spec fn spec_global(&self) -> int;

    /// The global address; it must fit in 32 bits.
    fn get_global_address(&self) -> (r: u32)
        requires
            self.spec_global() <= u32::MAX,
        ensures
            r == self.spec_global(),
    ;
}

/// An address that is held relative to the start of its region.
pub trait LocalAddress: GlobalAddress {
    spec fn spec_local(&self) -> u32;

    fn get_local_address(&self) -> (r: u32)
        ensures
            r == self.spec_local(),
    ;
}

/// An address in the data region, which starts at global address 0x0000_0000.
#[derive(Debug, PartialEq, Eq, Clone, Copy, PartialOrd, Ord, Hash, Structural)]
pub struct DataAddress(pub u32);

impl GlobalAddress for DataAddress {
    open spec fn spec_global(&self) -> int {
        self.0 + 0x0000_0000
    }

    fn get_global_address(&self) -> (r: u32) {
        self.0 + 0x0000_0000
    }
}

impl LocalAddress for DataAddress {
    open spec fn spec_local(&self) -> u32 {
        self.0
    }

    fn get_local_address(&self) -> (r: u32) {
        self.0
    }
}

impl Default for DataAddress {
    fn default() -> (r: DataAddress)
        ensures
            r.0 == 0,
    {
        DataAddress(0)
    }
}

impl DataAddress {
    /// The local address of a global address of this region; `None` beyond
    /// the region's end. Below the region's start it is not defined.
    pub fn new_from_global(global_addr: u32) -> (r: Option<DataAddress>)
        ensures
            global_addr > 0x0000_0000 + REGION_SIZE ==> r is None,
            global_addr <= 0x0000_0000 + REGION_SIZE ==> r == Some(DataAddress((global_addr - 0x0000_0000) as u32)),
    {
        if global_addr > 0x0000_0000 + REGION_SIZE {
            None
        } else {
            Some(DataAddress(global_addr - 0x0000_0000))
        }
    }

    pub fn new_from_local(local_addr: u32) -> (r: DataAddress)
        ensures
            r.0 == local_addr,
    {
        DataAddress(local_addr)
    }

    pub fn value(&self) -> (r: u32)
        ensures
            r == self.0,
    {
        self.0
    }
}

/// An address in the code region, which starts at global address 0x1000_0000.
#[derive(Debug, PartialEq, Eq, Clone, Copy, PartialOrd, Ord, Hash, Structural)]
pub struct CodeAddress(pub u32);

impl GlobalAddress for CodeAddress {
    open spec fn spec_global(&self) -> int {
        self.0 + 0x1000_0000
    }

    fn get_global_address(&self) -> (r: u32) {
        self.0 + 0x1000_0000
    }
}

impl LocalAddress for CodeAddress {
    open spec fn spec_local(&self) -> u32 {
        self.0
    }

    fn get_local_address(&self) -> (r: u32) {
        self.0
    }
}

impl Default for CodeAddress {
    fn default() -> (r: CodeAddress)
        ensures
            r.0 == 0,
    {
        CodeAddress(0)
    }
}

impl CodeAddress {
    /// The local address of a global address of this region; `None` beyond
    /// the region's end. Below the region's start it is not defined.
    pub fn new_from_global(global_addr: u32) -> (r: Option<CodeAddress>)
        requires
            global_addr >= 0x1000_0000,
        ensures
            global_addr > 0x1000_0000 + REGION_SIZE ==> r is None,
            global_addr <= 0x1000_0000 + REGION_SIZE ==> r == Some(CodeAddress((global_addr - 0x1000_0000) as u32)),
    {
        if global_addr > 0x1000_0000 + REGION_SIZE {
            None
        } else {
            Some(CodeAddress(global_addr - 0x1000_0000))
        }
    }

    pub fn new_from_local(local_addr: u32) -> (r: CodeAddress)
        ensures
            r.0 == local_addr,
    {
        CodeAddress(local_addr)
    }

    pub fn value(&self) -> (r: u32)
        ensures
            r == self.0,
    {
        self.0
    }
}

/// An address in the API data region, which starts at global address 0x2000_0000.
#[derive(Debug, PartialEq, Eq, Clone, Copy, PartialOrd, Ord, Hash, Structural)]
pub struct ApiDataAddress(pub u32);

impl GlobalAddress for ApiDataAddress {
    open spec fn spec_global(&self) -> int {
        self.0 + 0x2000_0000
    }

    fn get_global_address(&self) -> (r: u32) {
        self.0 + 0x2000_0000
    }
}

impl LocalAddress for ApiDataAddress {
    open spec fn spec_local(&self) -> u32 {
        self.0
    }

    fn get_local_address(&self) -> (r: u32) {
        self.0
    }
}

impl Default for ApiDataAddress {
    fn default() -> (r: ApiDataAddress)
        ensures
            r.0 == 0,
    {
        ApiDataAddress(0)
    }
}

impl ApiDataAddress {
    /// The local address of a global address of this region; `None` beyond
    /// the region's end. Below the region's start it is not defined.
    pub fn new_from_global(global_addr: u32) -> (r: Option<ApiDataAddress>)
        requires
            global_addr >= 0x2000_0000,
        ensures
            global_addr > 0x2000_0000 + REGION_SIZE ==> r is None,
            global_addr <= 0x2000_0000 + REGION_SIZE ==> r == Some(ApiDataAddress((global_addr - 0x2000_0000) as u32)),
    {
        if global_addr > 0x2000_0000 + REGION_SIZE {
            None
        } else {
            Some(ApiDataAddress(global_addr - 0x2000_0000))
        }
    }

    pub fn new_from_local(local_addr: u32) -> (r: ApiDataAddress)
        ensures
            r.0 == local_addr,
    {
        ApiDataAddress(local_addr)
    }

    pub fn value(&self) -> (r: u32)
        ensures
            r == self.0,
    {
        self.0
    }
}

/// An address in the API code region, which starts at global address 0x3000_0000.
#[derive(Debug, PartialEq, Eq, Clone, Copy, PartialOrd, Ord, Hash, Structural)]
pub struct ApiCodeAddress(pub u32);

impl GlobalAddress for ApiCodeAddress {
    open spec fn spec_global(&self) -> int {
        self.0 + 0x3000_0000
    }

    fn get_global_address(&self) -> (r: u32) {
        self.0 + 0x3000_0000
    }
}

impl LocalAddress for ApiCodeAddress {
    open spec fn spec_local(&self) -> u32 {
        self.0
    }

    fn get_local_address(&self) -> (r: u32) {
        self.0
    }
}

impl Default for ApiCodeAddress {
    fn default() -> (r: ApiCodeAddress)
        ensures
            r.0 == 0,
    {
        ApiCodeAddress(0)
    }
}

impl ApiCodeAddress {
    /// The local address of a global address of this region; `None` beyond
    /// the region's end. Below the region's start it is not defined.
    pub fn new_from_global(global_addr: u32) -> (r: Option<ApiCodeAddress>)
        requires
            global_addr >= 0x3000_0000,
        ensures
            global_addr > 0x3000_0000 + REGION_SIZE ==> r is None,
            global_addr <= 0x3000_0000 + REGION_SIZE ==> r == Some(ApiCodeAddress((global_addr - 0x3000_0000) as u32)),
    {
        if global_addr > 0x3000_0000 + REGION_SIZE {
            None
        } else {
            Some(ApiCodeAddress(global_addr - 0x3000_0000))
        }
    }

    pub fn new_from_local(local_addr: u32) -> (r: ApiCodeAddress)
        ensures
            r.0 == local_addr,
    {
        ApiCodeAddress(local_addr)
    }

    pub fn value(&self) -> (r: u32)
        ensures
            r == self.0,
    {
        self.0
    }
}

/// An address in the API native region, which starts at global address 0x4000_0000.
#[derive(Debug, PartialEq, Eq, Clone, Copy, PartialOrd, Ord, Hash, Structural)]
pub struct ApiNativeAddress(pub u32);

impl GlobalAddress for ApiNativeAddress {
    open spec fn spec_global(&self) -> int {
        self.0 + 0x4000_0000
    }

    fn get_global_address(&self) -> (r: u32) {
        self.0 + 0x4000_0000
    }
}

impl LocalAddress for ApiNativeAddress {
    open spec fn spec_local(&self) -> u32 {
        self.0
    }

    fn get_local_address(&self) -> (r: u32) {
        self.0
    }
}

impl Default for ApiNativeAddress {
    fn default() -> (r: ApiNativeAddress)
        ensures
            r.0 == 0,
    {
        ApiNativeAddress(0)
    }
}

impl ApiNativeAddress {
    /// The local address of a global address of this region; `None` beyond
    /// the region's end. Below the region's start it is not defined.
    pub fn new_from_global(global_addr: u32) -> (r: Option<ApiNativeAddress>)
        requires
            global_addr >= 0x4000_0000,
        ensures
            global_addr > 0x4000_0000 + REGION_SIZE ==> r is None,
            global_addr <= 0x4000_0000 + REGION_SIZE ==> r == Some(ApiNativeAddress((global_addr - 0x4000_0000) as u32)),
    {
        if global_addr > 0x4000_0000 + REGION_SIZE {
            None
        } else {
            Some(ApiNativeAddress(global_addr - 0x4000_0000))
        }
    }

    pub fn new_from_local(local_addr: u32) -> (r: ApiNativeAddress)
        ensures
            r.0 == local_addr,
    {
        ApiNativeAddress(local_addr)
    }

    pub fn value(&self) -> (r: u32)
        ensures
            r == self.0,
    {
        self.0
    }
}

/// An address in the extended code region, which starts at global address 0x5000_0000.
#[derive(Debug, PartialEq, Eq, Clone, Copy, PartialOrd, Ord, Hash, Structural)]
pub struct ExtendedCodeAddress(pub u32);

impl GlobalAddress for ExtendedCodeAddress {
    open spec fn spec_global(&self) -> int {
        self.0 + 0x5000_0000
    }

    fn get_global_address(&self) -> (r: u32) {
        self.0 + 0x5000_0000
    }
}

impl LocalAddress for ExtendedCodeAddress {
    open spec fn spec_local(&self) -> u32 {
        self.0
    }

    fn get_local_address(&self) -> (r: u32) {
        self.0
    }
}

impl Default for ExtendedCodeAddress {
    fn default() -> (r: ExtendedCodeAddress)
        ensures
            r.0 == 0,
    {
        ExtendedCodeAddress(0)
    }
}

impl ExtendedCodeAddress {
    /// The local address of a global address of this region; `None` beyond
    /// the region's end. Below the region's start it is not defined.
    pub fn new_from_global(global_addr: u32) -> (r: Option<ExtendedCodeAddress>)
        requires
            global_addr >= 0x5000_0000,
        ensures
            global_addr > 0x5000_0000 + REGION_SIZE ==> r is None,
            global_addr <= 0x5000_0000 + REGION_SIZE ==> r == Some(ExtendedCodeAddress((global_addr - 0x5000_0000) as u32)),
    {
        if global_addr > 0x5000_0000 + REGION_SIZE {
            None
        } else {
            Some(ExtendedCodeAddress(global_addr - 0x5000_0000))
        }
    }

    pub fn new_from_local(local_addr: u32) -> (r: ExtendedCodeAddress)
        ensures
            r.0 == local_addr,
    {
        ExtendedCodeAddress(local_addr)
    }

    pub fn value(&self) -> (r: u32)
        ensures
            r == self.0,
    {
        self.0
    }
}

/// An address in the native region, which starts at global address 0x6000_0000.
#[derive(Debug, PartialEq, Eq, Clone, Copy, PartialOrd, Ord, Hash, Structural)]
pub struct NativeAddress(pub u32);

impl GlobalAddress for NativeAddress {
    open spec fn spec_global(&self) -> int {
        self.0 + 0x6000_0000
    }

    fn get_global_address(&self) -> (r: u32) {
        self.0 + 0x6000_0000
    }
}

impl LocalAddress for NativeAddress {
    open spec fn spec_local(&self) -> u32 {
        self.0
    }

    fn get_local_address(&self) -> (r: u32) {
        self.0
    }
}

impl Default for NativeAddress {
    fn default() -> (r: NativeAddress)
        ensures
            r.0 == 0,
    {
        NativeAddress(0)
    }
}

impl NativeAddress {
    /// The local address of a global address of this region; `None` beyond
    /// the region's end. Below the region's start it is not defined.
    pub fn new_from_global(global_addr: u32) -> (r: Option<NativeAddress>)
        requires
            global_addr >= 0x6000_0000,
        ensures
            global_addr > 0x6000_0000 + REGION_SIZE ==> r is None,
            global_addr <= 0x6000_0000 + REGION_SIZE ==> r == Some(NativeAddress((global_addr - 0x6000_0000) as u32)),
    {
        if global_addr > 0x6000_0000 + REGION_SIZE {
            None
        } else {
            Some(NativeAddress(global_addr - 0x6000_0000))
        }
    }

    pub fn new_from_local(local_addr: u32) -> (r: NativeAddress)
        ensures
            r.0 == local_addr,
    {
        NativeAddress(local_addr)
    }

    pub fn value(&self) -> (r: u32)
        ensures
            r == self.0,
    {
        self.0
    }
}

/// An address in the symbol region, which starts at global address 0x8000_0000.
#[derive(Debug, PartialEq, Eq, Clone, Copy, PartialOrd, Ord, Hash, Structural)]
pub struct SymbolAddress(pub u32);

impl GlobalAddress for SymbolAddress {
    open spec fn spec_global(&self) -> int {
        self.0 + 0x8000_0000
    }

    fn get_global_address(&self) -> (r: u32) {
        self.0 + 0x8000_0000
    }
}

impl LocalAddress for SymbolAddress {
    open spec fn spec_local(&self) -> u32 {
        self.0
    }

    fn get_local_address(&self) -> (r: u32) {
        self.0
    }
}

impl Default for SymbolAddress {
    fn default() -> (r: SymbolAddress)
        ensures
            r.0 == 0,
    {
        SymbolAddress(0)
    }
}

impl SymbolAddress {
    /// The local address of a global address of this region; `None` beyond
    /// the region's end. Below the region's start it is not defined.
    pub fn new_from_global(global_addr: u32) -> (r: Option<SymbolAddress>)
        requires
            global_addr >= 0x8000_0000,
        ensures
            global_addr > 0x8000_0000 + REGION_SIZE ==> r is None,
            global_addr <= 0x8000_0000 + REGION_SIZE ==> r == Some(SymbolAddress((global_addr - 0x8000_0000) as u32)),
    {
        if global_addr > 0x8000_0000 + REGION_SIZE {
            None
        } else {
            Some(SymbolAddress(global_addr - 0x8000_0000))
        }
    }

    pub fn new_from_local(local_addr: u32) -> (r: SymbolAddress)
        ensures
            r.0 == local_addr,
    {
        SymbolAddress(local_addr)
    }

    pub fn value(&self) -> (r: u32)
        ensures
            r == self.0,
    {
        self.0
    }
}

impl DisplayWithResolver for SymbolAddress {
    /// The symbol's name where the resolver has one, else `sym_` and the
    /// symbol's number.
    open spec fn spec_text(&self, names: ResolvedNames) -> Seq<char> {
        if names.symbols.contains_key(self.0) {
            names.symbols[self.0]
        } else {
            "sym_"@ + spec_decimal(self.0 as nat)
        }
    }

    fn text_with_resolver<R: AddressResolver>(&self, resolver: &R) -> (s: String) {
        match resolver.resolve_symbol(self.0) {
            Some(name) => name.to_owned(),
            None => prefixed_decimal("sym_", self.0 as usize),
        }
    }
}

impl DisplayWithResolver for DataAddress {
    /// The data's name, quoted and escaped, where the resolver has one, else
    /// `data_` and the address in upper-case hexadecimal.
    open spec fn spec_text(&self, names: ResolvedNames) -> Seq<char> {
        if names.data.contains_key(self.0) {
            "\""@ + spec_escape_default(names.data[self.0]) + "\""@
        } else {
            "data_"@ + spec_hex(self.0 as nat, true)
        }
    }

    fn text_with_resolver<R: AddressResolver>(&self, resolver: &R) -> (s: String) {
        match resolver.resolve_data(self.0) {
            Some(name) => quoted_text(name),
            None => prefixed_upper_hex("data_", self.0),
        }
    }
}

} // verus!
