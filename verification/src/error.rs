use vstd::prelude::*;

verus! {

/// Why a `.prg` image is rejected as malformed: each variant names a
/// structural expectation of the format that the input breaks.
#[derive(Debug, Clone, Copy, PartialEq, Eq, Structural)]
pub enum Malformed {
    /// A section header could not be read from the storage.
    SectionHeader,
    /// A section header declares more bytes than the image still holds.
    SectionLength,
    /// A section parser left bytes of its section unread.
    SectionNotConsumed,
    /// The UUID section carries trailing bytes other than the five padding bytes.
    UuidTrailing,
    /// The code section could not be decoded as an instruction stream.
    CodeStream,
    /// A global address lies outside the region it must belong to.
    AddressOutOfRegion,
    /// A class field carries a value type that is not understood.
    FieldType,
    /// A container element carries a tag that is not understood.
    ContainerField,
    /// A container carries a kind that is not understood.
    ContainerKind,
    /// A string inside a container block could not be read.
    ContainerString,
    /// A data entry starts with an unknown magic.
    DataEntryMagic,
    /// A string of a string table sits at an offset that no symbol refers to.
    StringOffset,
    /// A resource jump table carries an unknown type.
    JumpTableType,
    /// A resource table lies before the current read position.
    ResourceOffset,
    /// A drawable resource carries an unsupported encoding.
    Drawable,
    /// A resource is not tagged with the type that its table promises.
    ResourceTag,
    /// A font resource carries an unsupported encoding.
    Font,
    /// A size computed from the image does not fit the machine word.
    SizeOverflow,
    /// A count that a section must start with is missing.
    MissingCount,
    /// A string entry of the data section could not be read.
    DataString,
}

/// The errors of reading and parsing a `.prg` image.
#[derive(Debug, Clone, Copy, PartialEq, Eq, Structural)]
pub enum ParseError {
    /// A read asked for more bytes than the reader still has.
    UnexpectedEof { requested: u64, remaining: u64 },
    /// The underlying byte storage ended before the reader's declared length.
    StreamEnded,
    /// A string's bytes are not valid UTF-8.
    InvalidUtf8,
    /// An instruction stream holds a byte that is no opcode.
    InvalidOpcode(u8),
    /// The image breaks a structural expectation of the format.
    Malformed(Malformed),
}

} // verus!
