use vstd::prelude::*;
use std::collections::HashMap;

use crate::binary_reader::{
    advance, i32_as_u64, i32_to_u64, lemma_repeat_err, lemma_repeat_no_growth, no_growth, pmap,
    repeat, spec_consume, spec_new_string, spec_read_bytes, spec_read_i32, spec_read_u16,
    spec_read_u32, spec_read_u8, spec_window, twos, BinaryReader, PResult, ReaderView,
};
use crate::constants::{ApiNativeAddress, CodeAddress, DataAddress, SymbolAddress};
use crate::error::{Malformed, ParseError};
use crate::sections::symbols::offset_of;
use crate::sections::{parsed_as, SectionKind, SectionKindView};

verus! {

broadcast use vstd::std_specs::hash::group_hash_axioms;

/// What a class value refers to: a class of the program's data, or one of
/// the API's native classes.
#[derive(Debug, Clone, Copy, PartialEq, Eq, Structural)]
pub enum ClassTypes {
    Data(DataAddress),
    ApiNative(ApiNativeAddress),
}

/// The value of a field. `Float` holds the IEEE-754 bit pattern.
#[derive(Debug, Clone, Copy, PartialEq, Eq, Structural)]
pub enum FieldValue {
    Null,
    Int(i32),
    Float(u32),
    String(DataAddress),
    Object,
    Array(DataAddress),
    Method(CodeAddress),
    Class(ClassTypes),
    Symbol,
    Boolean(bool),
    Module(DataAddress),
    Dictionary(DataAddress),
    Resource,
    PrimitiveObject,
    Long,
    Double,
    WeakRef,
    PrimitiveModule,
    SystemPointer,
    Char,
    Bytearray(DataAddress),
    SystemData,
    ResourceID,
}

/// The flags of a field: bit 0 const, bit 1 hidden, bit 2 static.
#[derive(Debug, Clone, Copy, PartialEq, Eq, Structural)]
pub struct Flags(pub u8);

impl Flags {
    /// The letters of the flags that are set, in brackets: `C` const, `H`
    /// hidden, `S` static; nothing where no flag is set.
    pub open spec fn spec_text(self) -> Seq<char> {
        if self.0 == 0 {
            seq![]
        } else {
            "("@ + (if self.0 & 1 == 1 { "C"@ } else { seq![] }) + (if self.0 & 2 == 2 { "H"@ } else { seq![] })
                + (if self.0 & 4 == 4 { "S"@ } else { seq![] }) + ")"@
        }
    }

    pub fn to_string(&self) -> (s: String)
        ensures
            s@ == self.spec_text(),
    {
        let mut s = String::new();
        if self.0 != 0 {
            s.append("(");
            if self.0 & 0b001 == 0b001 {
                s.append("C");
            }
            if self.0 & 0b010 == 0b010 {
                s.append("H");
            }
            if self.0 & 0b100 == 0b100 {
                s.append("S");
            }
            s.append(")");
        }
        assert(s@ =~= self.spec_text());
        s
    }
}

#[derive(Debug, Clone, Copy, PartialEq, Eq, Structural)]
pub struct Field {
    pub symbol: SymbolAddress,
    pub value: FieldValue,
    pub flags: Flags,
}

#[derive(Debug)]
pub struct Class {
    pub extends_offset: Option<DataAddress>,
    pub statics: u32,
    pub parent_module_id: Option<SymbolAddress>,
    pub module_id: Option<SymbolAddress>,
    pub app_type: u16,
    pub fields: Vec<Field>,
}

/// The abstract value of a class.
pub struct ClassView {
    pub extends_offset: Option<DataAddress>,
    pub statics: u32,
    pub parent_module_id: Option<SymbolAddress>,
    pub module_id: Option<SymbolAddress>,
    pub app_type: u16,
    pub fields: Seq<Field>,
}

impl View for Class {
    type V = ClassView;

    open spec fn view(&self) -> ClassView {
        ClassView {
            extends_offset: self.extends_offset,
            statics: self.statics,
            parent_module_id: self.parent_module_id,
            module_id: self.module_id,
            app_type: self.app_type,
            fields: self.fields@,
        }
    }
}

#[derive(Debug)]
pub struct Array {
    pub items: Vec<FieldValue>,
}

#[derive(Debug)]
pub enum DataEntryTypes {
    String(String),
    Class(Class),
    Array(Vec<FieldValue>),
    ByteArray(Vec<u8>),
    Dictionary(Vec<(FieldValue, FieldValue)>),
}

/// The abstract value of a data entry.
pub enum DataEntryView {
    String(Seq<char>),
    Class(ClassView),
    Array(Seq<FieldValue>),
    ByteArray(Seq<u8>),
    Dictionary(Seq<(FieldValue, FieldValue)>),
}

impl View for DataEntryTypes {
    type V = DataEntryView;

    open spec fn view(&self) -> DataEntryView {
        match self {
            DataEntryTypes::String(s) => DataEntryView::String(s@),
            DataEntryTypes::Class(c) => DataEntryView::Class(c@),
            DataEntryTypes::Array(a) => DataEntryView::Array(a@),
            DataEntryTypes::ByteArray(b) => DataEntryView::ByteArray(b@),
            DataEntryTypes::Dictionary(d) => DataEntryView::Dictionary(d@),
        }
    }
}

/// The data entries by their local data address.
pub type DataData = HashMap<u32, DataEntryTypes>;

pub open spec fn data_view(m: Map<u32, DataEntryTypes>) -> Map<u32, DataEntryView> {
    m.map_values(|e: DataEntryTypes| e@)
}

/// A global address that must lie in the data region.
pub open spec fn spec_data_global(raw: u32) -> Result<DataAddress, ParseError> {
    if raw > 0x1000_0000 {
        Err(ParseError::Malformed(Malformed::AddressOutOfRegion))
    } else {
        Ok(DataAddress(raw))
    }
}

fn data_global(raw: u32) -> (r: Result<DataAddress, ParseError>)
    ensures
        r == spec_data_global(raw),
{
    match DataAddress::new_from_global(raw) {
        Some(a) => Ok(a),
        None => Err(ParseError::Malformed(Malformed::AddressOutOfRegion)),
    }
}

/// What a field's raw word means, by its value type: a Boolean (type 9) is
/// true exactly when the word is nonzero; an Int (type 1) has the word's
/// bits; a Float (type 2) is the word itself; a Method (type 6) is the word
/// less the base of the code region.
pub proof fn lemma_field_value_meaning(vt: u8, raw: u32, flags: u8)
    ensures
        vt == 9 ==> spec_field_value(vt, raw, flags) == Ok::<FieldValue, ParseError>(FieldValue::Boolean(raw != 0)),
        spec_field_value(vt, raw, flags) matches Ok(FieldValue::Boolean(b)) ==> vt == 9 && (b <==> raw != 0),
        spec_field_value(vt, raw, flags) matches Ok(FieldValue::Int(v)) ==> vt == 1 && (v as int + 0x1_0000_0000) % 0x1_0000_0000 == raw as int,
        spec_field_value(vt, raw, flags) matches Ok(FieldValue::Float(v)) ==> vt == 2 && v == raw,
        spec_field_value(vt, raw, flags) matches Ok(FieldValue::Method(a)) ==> vt == 6 && a.0 + 0x1000_0000 == raw as int,
        spec_field_value(vt, raw, flags) matches Ok(FieldValue::Class(ClassTypes::Data(a))) ==> vt == 7 && a.0 == raw,
        spec_field_value(vt, raw, flags) matches Ok(FieldValue::Class(ClassTypes::ApiNative(a))) ==> vt == 7 && a.0 + 0x4000_0000 == raw as int,
        spec_field_value(vt, raw, flags) matches Ok(FieldValue::String(a)) ==> vt == 3 && a.0 == raw,
        spec_field_value(vt, raw, flags) matches Ok(FieldValue::Array(a)) ==> vt == 5 && a.0 == raw,
        spec_field_value(vt, raw, flags) matches Ok(FieldValue::Dictionary(a)) ==> vt == 11 && a.0 == raw,
        spec_field_value(vt, raw, flags) matches Ok(FieldValue::Module(a)) ==> vt == 10 && flags == 0 && a.0 == raw,
        spec_field_value(vt, raw, flags) matches Ok(FieldValue::Bytearray(a)) ==> vt == 20 && a.0 == raw,
        spec_field_value(vt, raw, flags) matches Ok(FieldValue::Null) ==> vt == 0 || (vt == 10 && flags != 0),
{
}

/// The value of a field of type `vt` whose raw 32-bit value is `raw`.
pub open spec fn spec_field_value(vt: u8, raw: u32, flags: u8) -> Result<FieldValue, ParseError> {
    if vt == 0 {
        Ok(FieldValue::Null)
    } else if vt == 1 {
        Ok(FieldValue::Int(twos(raw as int, 0x8000_0000) as i32))
    } else if vt == 2 {
        Ok(FieldValue::Float(raw))
    } else if vt == 3 {
        match spec_data_global(raw) {
            Ok(a) => Ok(FieldValue::String(a)),
            Err(e) => Err(e),
        }
    } else if vt == 5 {
        match spec_data_global(raw) {
            Ok(a) => Ok(FieldValue::Array(a)),
            Err(e) => Err(e),
        }
    } else if vt == 6 {
        if 0x1000_0000 <= raw <= 0x2000_0000 {
            Ok(FieldValue::Method(CodeAddress((raw - 0x1000_0000) as u32)))
        } else {
            Err(ParseError::Malformed(Malformed::AddressOutOfRegion))
        }
    } else if vt == 7 {
        if raw <= 0x1000_0000 {
            Ok(FieldValue::Class(ClassTypes::Data(DataAddress(raw))))
        } else if 0x4000_0000 <= raw <= 0x5000_0000 {
            Ok(FieldValue::Class(ClassTypes::ApiNative(ApiNativeAddress((raw - 0x4000_0000) as u32))))
        } else {
            Err(ParseError::Malformed(Malformed::AddressOutOfRegion))
        }
    } else if vt == 9 {
        Ok(FieldValue::Boolean(raw != 0))
    } else if vt == 11 {
        match spec_data_global(raw) {
            Ok(a) => Ok(FieldValue::Dictionary(a)),
            Err(e) => Err(e),
        }
    } else if vt == 10 {
        if flags != 0 {
            Ok(FieldValue::Null)
        } else {
            match spec_data_global(raw) {
                Ok(a) => Ok(FieldValue::Module(a)),
                Err(e) => Err(e),
            }
        }
    } else if vt == 20 {
        match spec_data_global(raw) {
            Ok(a) => Ok(FieldValue::Bytearray(a)),
            Err(e) => Err(e),
        }
    } else {
        Err(ParseError::Malformed(Malformed::FieldType))
    }
}

fn field_value(vt: u8, raw: u32, flags: u8) -> (r: Result<FieldValue, ParseError>)
    ensures
        r == spec_field_value(vt, raw, flags),
{
    match vt {
        0 => Ok(FieldValue::Null),
        1 => Ok(FieldValue::Int(crate::binary_reader::u32_to_i32(raw))),
        2 => Ok(FieldValue::Float(raw)),
        3 => Ok(FieldValue::String(data_global(raw)?)),
        5 => Ok(FieldValue::Array(data_global(raw)?)),
        6 => {
            if raw < 0x1000_0000 {
                return Err(ParseError::Malformed(Malformed::AddressOutOfRegion));
            }
            match CodeAddress::new_from_global(raw) {
                Some(a) => Ok(FieldValue::Method(a)),
                None => Err(ParseError::Malformed(Malformed::AddressOutOfRegion)),
            }
        },
        7 => match DataAddress::new_from_global(raw) {
            Some(a) => Ok(FieldValue::Class(ClassTypes::Data(a))),
            None => {
                if raw < 0x4000_0000 {
                    return Err(ParseError::Malformed(Malformed::AddressOutOfRegion));
                }
                match ApiNativeAddress::new_from_global(raw) {
                    Some(a) => Ok(FieldValue::Class(ClassTypes::ApiNative(a))),
                    None => Err(ParseError::Malformed(Malformed::AddressOutOfRegion)),
                }
            },
        },
        9 => Ok(FieldValue::Boolean(raw != 0)),
        11 => Ok(FieldValue::Dictionary(data_global(raw)?)),
        10 => {
            if flags != 0 {
                Ok(FieldValue::Null)
            } else {
                Ok(FieldValue::Module(data_global(raw)?))
            }
        },
        20 => Ok(FieldValue::Bytearray(data_global(raw)?)),
        _ => Err(ParseError::Malformed(Malformed::FieldType)),
    }
}

/// A class field: a 32-bit key (symbol in bits 8..32, flags in bits 4..8
/// and, for fixed-size classes, the value type in bits 0..4), for
/// variable-size classes a value type byte, then the raw 32-bit value.
pub open spec fn spec_field(r: ReaderView, varsized: bool) -> PResult<Field> {
    match spec_read_u32(r) {
        Err(e) => Err(e),
        Ok((key, r1)) => {
            let vt: PResult<u8> = if varsized {
                spec_read_u8(r1)
            } else {
                Ok(((key % 16) as u8, r1))
            };
            match vt {
                Err(e) => Err(e),
                Ok((value_type, r2)) => match spec_read_u32(r2) {
                    Err(e) => Err(e),
                    Ok((raw, r3)) => {
                        let flags = ((key / 16) % 16) as u8;
                        match spec_field_value(value_type, raw, flags) {
                            Ok(v) => Ok((
                                Field { symbol: SymbolAddress((key / 256) as u32), value: v, flags: Flags(flags) },
                                r3,
                            )),
                            Err(e) => Err(e),
                        }
                    },
                },
            }
        },
    }
}

fn parse_field(reader: &mut BinaryReader, varsized: bool) -> (res: Result<Field, ParseError>)
    ensures
        match spec_field(old(reader)@, varsized) {
            Ok((v, r)) => res == Ok::<Field, ParseError>(v) && final(reader)@ == r,
            Err(e) => res == Err::<Field, ParseError>(e),
        },
{
    let key = reader.read_u32()?;
    let value_type = if varsized {
        reader.read_u8()?
    } else {
        (key % 16) as u8
    };
    let raw_value = reader.read_u32()?;
    let symbol = key / 256;
    let flags = ((key / 16) % 16) as u8;
    let value = field_value(value_type, raw_value, flags)?;
    Ok(Field { symbol: SymbolAddress::new_from_local(symbol), flags: Flags(flags), value })
}

/// `p` when `cond` holds; otherwise `default` without reading.
pub open spec fn spec_when<T>(cond: bool, r: ReaderView, p: PResult<T>, default: T) -> PResult<T> {
    if cond {
        p
    } else {
        Ok((default, r))
    }
}

/// Whether a class part is present: always in fixed-size classes, and in
/// variable-size classes when its bit of the presence byte is set.
pub open spec fn has_part(varsized: bool, presence: u8, bit: int) -> bool {
    !varsized || (presence as int / bit) % 2 == 1
}

/// A non-zero symbol.
pub open spec fn nonzero_symbol(v: u32) -> Option<SymbolAddress> {
    if v != 0 {
        Some(SymbolAddress(v))
    } else {
        None
    }
}

/// A non-zero data address of the data region.
pub open spec fn extends_of(v: u32) -> Option<DataAddress> {
    if v == 0 || v > 0x1000_0000 {
        None
    } else {
        Some(DataAddress(v))
    }
}

/// A class definition. Variable-size classes (CIQ 5.0.0 onwards) start with
/// a presence byte for the extends offset, statics, parent module and
/// module; fixed-size ones have all four. Then come the app type, the field
/// count (16-bit in variable-size classes, 8-bit otherwise) and the fields.
pub open spec fn spec_class(r: ReaderView, varsized: bool) -> PResult<ClassView> {
    match spec_when(varsized, r, spec_read_u8(r), 0u8) {
        Err(e) => Err(e),
        Ok((presence, r1)) => match spec_when(
            has_part(varsized, presence, 1),
            r1,
            pmap(spec_read_u32(r1), |v: u32| extends_of(v)),
            None,
        ) {
            Err(e) => Err(e),
            Ok((extends_offset, r2)) => match spec_when(has_part(varsized, presence, 2), r2, spec_read_u32(r2), 0u32) {
                Err(e) => Err(e),
                Ok((statics, r3)) => match spec_when(
                    has_part(varsized, presence, 4),
                    r3,
                    pmap(spec_read_u32(r3), |v: u32| nonzero_symbol(v)),
                    None,
                ) {
                    Err(e) => Err(e),
                    Ok((parent_module_id, r4)) => match spec_when(
                        has_part(varsized, presence, 8),
                        r4,
                        pmap(spec_read_u32(r4), |v: u32| nonzero_symbol(v)),
                        None,
                    ) {
                        Err(e) => Err(e),
                        Ok((module_id, r5)) => match spec_read_u16(r5) {
                            Err(e) => Err(e),
                            Ok((app_type, r6)) => {
                                let count: PResult<u16> = if varsized {
                                    spec_read_u16(r6)
                                } else {
                                    pmap(spec_read_u8(r6), |b: u8| b as u16)
                                };
                                match count {
                                    Err(e) => Err(e),
                                    Ok((n, r7)) => match repeat(|x: ReaderView| spec_field(x, varsized), r7, n as nat) {
                                        Err(e) => Err(e),
                                        Ok((fields, r8)) => Ok((
                                            ClassView {
                                                extends_offset: extends_offset,
                                                statics: statics,
                                                parent_module_id: parent_module_id,
                                                module_id: module_id,
                                                app_type: app_type,
                                                fields: fields,
                                            },
                                            r8,
                                        )),
                                    },
                                }
                            },
                        },
                    },
                },
            },
        },
    }
}

fn read_nonzero_symbol(reader: &mut BinaryReader) -> (res: Result<Option<SymbolAddress>, ParseError>)
    ensures
        match pmap(spec_read_u32(old(reader)@), |v: u32| nonzero_symbol(v)) {
            Ok((v, r)) => res == Ok::<Option<SymbolAddress>, ParseError>(v) && final(reader)@ == r,
            Err(e) => res == Err::<Option<SymbolAddress>, ParseError>(e),
        },
{
    let v = reader.read_u32()?;
    if v != 0 {
        Ok(Some(SymbolAddress::new_from_local(v)))
    } else {
        Ok(None)
    }
}

fn parse_class(reader: &mut BinaryReader, varsized: bool) -> (res: Result<Class, ParseError>)
    ensures
        match spec_class(old(reader)@, varsized) {
            Ok((v, r)) => res matches Ok(c) && c@ == v && final(reader)@ == r,
            Err(e) => res matches Err(e2) && e2 == e,
        },
{
    let presence: u8 = if varsized {
        reader.read_u8()?
    } else {
        0
    };
    let extends_offset = if !varsized || presence % 2 == 1 {
        let raw = reader.read_u32()?;
        if raw == 0 {
            None
        } else {
            DataAddress::new_from_global(raw)
        }
    } else {
        None
    };
    let statics = if !varsized || (presence / 2) % 2 == 1 {
        reader.read_u32()?
    } else {
        0
    };
    let parent_module_id = if !varsized || (presence / 4) % 2 == 1 {
        read_nonzero_symbol(reader)?
    } else {
        None
    };
    let module_id = if !varsized || (presence / 8) % 2 == 1 {
        read_nonzero_symbol(reader)?
    } else {
        None
    };
    let app_type = reader.read_u16()?;
    let n: u16 = if varsized {
        reader.read_u16()?
    } else {
        reader.read_u8()? as u16
    };
    let ghost r7 = reader@;
    let ghost p = |x: ReaderView| spec_field(x, varsized);
    let ghost prefix = (presence, extends_offset, statics, parent_module_id, module_id, app_type, n);
    let mut fields: Vec<Field> = Vec::new();
    let mut i: u16 = 0;
    while i < n
        invariant
            i <= n,
            p == (|x: ReaderView| spec_field(x, varsized)),
            repeat(p, r7, i as nat) == Ok::<(Seq<Field>, ReaderView), ParseError>((fields@, reader@)),
            match spec_class(old(reader)@, varsized) {
                Ok((v, r)) => repeat(p, r7, n as nat) matches Ok((fs, r8)) && r8 == r && v == (ClassView {
                    extends_offset: extends_offset,
                    statics: statics,
                    parent_module_id: parent_module_id,
                    module_id: module_id,
                    app_type: app_type,
                    fields: fs,
                }),
                Err(e) => repeat(p, r7, n as nat) == Err::<(Seq<Field>, ReaderView), ParseError>(e),
            },
        decreases n - i,
    {
        match parse_field(reader, varsized) {
            Ok(f) => fields.push(f),
            Err(e) => {
                proof { lemma_repeat_err(p, r7, (i + 1) as nat, n as nat); }
                return Err(e);
            },
        }
        i = i + 1;
    }
    Ok(Class { extends_offset, statics, parent_module_id, module_id, app_type, fields })
}

/// An element of a container: a tag byte, then nothing (null), a 32-bit
/// integer, or a string's global data address.
pub open spec fn spec_container_field(r: ReaderView) -> PResult<FieldValue> {
    match spec_read_u8(r) {
        Err(e) => Err(e),
        Ok((tag, r1)) => if tag == 0 {
            Ok((FieldValue::Null, r1))
        } else if tag == 1 {
            pmap(spec_read_i32(r1), |v: i32| FieldValue::Int(v))
        } else if tag == 3 {
            match spec_read_u32(r1) {
                Err(e) => Err(e),
                Ok((raw, r2)) => match spec_data_global(raw) {
                    Ok(a) => Ok((FieldValue::String(a), r2)),
                    Err(e) => Err(e),
                },
            }
        } else {
            Err(ParseError::Malformed(Malformed::ContainerField))
        },
    }
}

/// A dictionary entry: key, then value.
pub open spec fn spec_container_pair(r: ReaderView) -> PResult<(FieldValue, FieldValue)> {
    match spec_container_field(r) {
        Err(e) => Err(e),
        Ok((k, r1)) => pmap(spec_container_field(r1), |v: FieldValue| (k, v)),
    }
}

#[allow(non_snake_case)]
fn ParseContainerField(reader: &mut BinaryReader) -> (res: Result<FieldValue, ParseError>)
    ensures
        match spec_container_field(old(reader)@) {
            Ok((v, r)) => res == Ok::<FieldValue, ParseError>(v) && final(reader)@ == r,
            Err(e) => res == Err::<FieldValue, ParseError>(e),
        },
{
    let tag = reader.read_u8()?;
    match tag {
        0 => Ok(FieldValue::Null),
        1 => Ok(FieldValue::Int(reader.read_i32()?)),
        3 => {
            let raw = reader.read_u32()?;
            Ok(FieldValue::String(data_global(raw)?))
        },
        _ => Err(ParseError::Malformed(Malformed::ContainerField)),
    }
}

fn read_container_pair(reader: &mut BinaryReader) -> (res: Result<(FieldValue, FieldValue), ParseError>)
    ensures
        match spec_container_pair(old(reader)@) {
            Ok((v, r)) => res == Ok::<(FieldValue, FieldValue), ParseError>(v) && final(reader)@ == r,
            Err(e) => res == Err::<(FieldValue, FieldValue), ParseError>(e),
        },
{
    let k = ParseContainerField(reader)?;
    let v = ParseContainerField(reader)?;
    Ok((k, v))
}

/// The string block of a container: 16-bit lengths, each followed by that
/// many UTF-8 bytes, to the end of the block; every string must be readable.
pub open spec fn spec_block_strings(r: ReaderView) -> PResult<()>
    decreases r.remaining,
{
    if r.remaining <= 0 {
        Ok(((), r))
    } else {
        match spec_read_u16(r) {
            Err(e) => Err(e),
            Ok((len, r1)) => match spec_new_string(r1, len as int) {
                Err(_) => Err(ParseError::Malformed(Malformed::ContainerString)),
                Ok((_, r2)) => spec_block_strings(r2),
            },
        }
    }
}

fn parse_block_strings(reader: &mut BinaryReader) -> (res: Result<(), ParseError>)
    ensures
        match spec_block_strings(old(reader)@) {
            Ok((_, r)) => res is Ok && final(reader)@ == r,
            Err(e) => res == Err::<(), ParseError>(e),
        },
{
    while reader.has_remaining()
        invariant
            spec_block_strings(reader@) == spec_block_strings(old(reader)@),
        decreases reader@.remaining,
    {
        reader.well_formed();
        let length = reader.read_u16()?;
        match reader.new_string(length as u64) {
            Ok(_) => {},
            Err(_) => {
                return Err(ParseError::Malformed(Malformed::ContainerString));
            },
        }
    }
    Ok(())
}

/// The contents of a container: a byte array takes the whole window; an
/// array holds `len` elements and a dictionary `len` pairs.
pub open spec fn spec_container_body(kind: u8, len: u32, w: ReaderView) -> PResult<DataEntryView> {
    if kind == 20 {
        pmap(spec_read_bytes(w, w.remaining), |b: Seq<u8>| DataEntryView::ByteArray(b))
    } else if kind == 5 {
        pmap(repeat(|x: ReaderView| spec_container_field(x), w, len as nat), |a: Seq<FieldValue>| DataEntryView::Array(a))
    } else if kind == 11 {
        pmap(
            repeat(|x: ReaderView| spec_container_pair(x), w, len as nat),
            |d: Seq<(FieldValue, FieldValue)>| DataEntryView::Dictionary(d),
        )
    } else {
        Err(ParseError::Malformed(Malformed::ContainerKind))
    }
}

/// A container entry (after its tag): total length, a magic that announces
/// an optional string block (whose strings are checked and skipped, with
/// four more bytes), four skipped bytes, the container kind and length, and
/// the body, which extends over the rest of the section.
pub open spec fn spec_container(r: ReaderView) -> PResult<DataEntryView> {
    match spec_read_u32(r) {
        Err(e) => Err(e),
        Ok((_total_len, r1)) => match spec_read_u32(r1) {
            Err(e) => Err(e),
            Ok((magic, r2)) => {
                let after_block: PResult<()> = if magic == 0xABCD_ABCD {
                    match spec_read_i32(r2) {
                        Err(e) => Err(e),
                        Ok((blocklen, r3)) => {
                            let len = i32_as_u64(blocklen);
                            if len > r3.remaining {
                                Err(ParseError::Malformed(Malformed::SectionLength))
                            } else {
                                match spec_block_strings(spec_window(r3, len)) {
                                    Err(e) => Err(e),
                                    Ok(_) => spec_consume(advance(r3, len), 4),
                                }
                            }
                        },
                    }
                } else {
                    Ok(((), r2))
                };
                match after_block {
                    Err(e) => Err(e),
                    Ok((_, r4)) => match spec_consume(r4, 4) {
                        Err(e) => Err(e),
                        Ok((_, r5)) => match spec_read_u8(r5) {
                            Err(e) => Err(e),
                            Ok((kind, r6)) => match spec_read_u32(r6) {
                                Err(e) => Err(e),
                                Ok((len, r7)) => match spec_container_body(kind, len, spec_window(r7, r7.remaining)) {
                                    Err(e) => Err(e),
                                    Ok((v, _)) => match spec_consume(advance(r7, r7.remaining), 1) {
                                        Err(e) => Err(e),
                                        Ok((_, r8)) => Ok((v, r8)),
                                    },
                                },
                            },
                        },
                    },
                }
            },
        },
    }
}

fn parse_container_body(kind: u8, len: u32, w: &mut BinaryReader) -> (res: Result<DataEntryTypes, ParseError>)
    ensures
        match spec_container_body(kind, len, old(w)@) {
            Ok((v, _)) => res matches Ok(d) && d@ == v,
            Err(e) => res matches Err(e2) && e2 == e,
        },
{
    if kind == 20 {
        let n = w.get_remaining();
        let bytes = w.read_n_bytes(n)?;
        Ok(DataEntryTypes::ByteArray(bytes))
    } else if kind == 5 {
        let ghost r0 = w@;
        let ghost p = |x: ReaderView| spec_container_field(x);
        let mut arr: Vec<FieldValue> = Vec::new();
        let mut i: u32 = 0;
        while i < len
            invariant
                i <= len,
                kind == 5,
                r0 == old(w)@,
                p == (|x: ReaderView| spec_container_field(x)),
                repeat(p, r0, i as nat) == Ok::<(Seq<FieldValue>, ReaderView), ParseError>((arr@, w@)),
            decreases len - i,
        {
            match ParseContainerField(w) {
                Ok(v) => arr.push(v),
                Err(e) => {
                    proof { lemma_repeat_err(p, r0, (i + 1) as nat, len as nat); }
                    return Err(e);
                },
            }
            i = i + 1;
        }
        Ok(DataEntryTypes::Array(arr))
    } else if kind == 11 {
        let ghost r0 = w@;
        let ghost p = |x: ReaderView| spec_container_pair(x);
        let mut dict: Vec<(FieldValue, FieldValue)> = Vec::new();
        let mut i: u32 = 0;
        while i < len
            invariant
                i <= len,
                kind == 11,
                r0 == old(w)@,
                p == (|x: ReaderView| spec_container_pair(x)),
                repeat(p, r0, i as nat) == Ok::<(Seq<(FieldValue, FieldValue)>, ReaderView), ParseError>((dict@, w@)),
            decreases len - i,
        {
            match read_container_pair(w) {
                Ok(v) => dict.push(v),
                Err(e) => {
                    proof { lemma_repeat_err(p, r0, (i + 1) as nat, len as nat); }
                    return Err(e);
                },
            }
            i = i + 1;
        }
        Ok(DataEntryTypes::Dictionary(dict))
    } else {
        Err(ParseError::Malformed(Malformed::ContainerKind))
    }
}

fn parse_container(reader: &mut BinaryReader) -> (res: Result<DataEntryTypes, ParseError>)
    ensures
        match spec_container(old(reader)@) {
            Ok((v, r)) => res matches Ok(d) && d@ == v && final(reader)@ == r,
            Err(e) => res matches Err(e2) && e2 == e,
        },
{
    let _total_len = reader.read_u32()?;
    let magic = reader.read_u32()?;
    if magic == 0xABCD_ABCD {
        let blocklen = i32_to_u64(reader.read_i32()?);
        if blocklen > reader.get_remaining() {
            return Err(ParseError::Malformed(Malformed::SectionLength));
        }
        let mut block_reader = reader.mut_slice(blocklen);
        parse_block_strings(&mut block_reader)?;
        reader.consume(4)?;
    }
    reader.consume(4)?;
    let container_magic = reader.read_u8()?;
    let container_len = reader.read_u32()?;
    let rest = reader.get_remaining();
    let mut sized_reader = reader.mut_slice(rest);
    let ret = parse_container_body(container_magic, container_len, &mut sized_reader)?;
    reader.consume(1)?;
    Ok(ret)
}

/// A data entry: a tag byte, then a string (tag 1: 16-bit length, UTF-8
/// bytes, terminator), a container (tag 3), or a class (tags 0xc1 and 0xc2,
/// variable-size for 0xc2, after the magic bytes a5 5d ef).
pub open spec fn spec_entry(r: ReaderView) -> PResult<DataEntryView> {
    match spec_read_u8(r) {
        Err(e) => Err(e),
        Ok((first, r1)) => if first == 1 {
            match spec_read_u16(r1) {
                Err(e) => Err(e),
                Ok((len, r2)) => match spec_new_string(r2, len as int) {
                    Err(_) => Err(ParseError::Malformed(Malformed::DataString)),
                    Ok((s, r3)) => match spec_read_u8(r3) {
                        Err(e) => Err(e),
                        Ok((_, r4)) => Ok((DataEntryView::String(s), r4)),
                    },
                },
            }
        } else if first == 3 {
            spec_container(r1)
        } else {
            match spec_read_bytes(r1, 3) {
                Err(e) => Err(e),
                Ok((m, r2)) => if m == seq![0xa5u8, 0x5du8, 0xefu8] && (first == 0xc2 || first == 0xc1) {
                    pmap(spec_class(r2, first == 0xc2), |c: ClassView| DataEntryView::Class(c))
                } else {
                    Err(ParseError::Malformed(Malformed::DataEntryMagic))
                },
            }
        },
    }
}

fn parse_entry(reader: &mut BinaryReader) -> (res: Result<DataEntryTypes, ParseError>)
    ensures
        match spec_entry(old(reader)@) {
            Ok((v, r)) => res matches Ok(d) && d@ == v && final(reader)@ == r,
            Err(e) => res matches Err(e2) && e2 == e,
        },
{
    let first = reader.read_u8()?;
    if first == 1 {
        let length = reader.read_u16()?;
        let string = match reader.new_string(length as u64) {
            Ok(s) => s,
            Err(_) => {
                return Err(ParseError::Malformed(Malformed::DataString));
            },
        };
        reader.read_u8()?;
        Ok(DataEntryTypes::String(string))
    } else if first == 3 {
        parse_container(reader)
    } else {
        let m = reader.read_bytes::<3>()?;
        if m[0] == 0xa5 && m[1] == 0x5d && m[2] == 0xef && (first == 0xc2 || first == 0xc1) {
            assert(m@ =~= seq![0xa5u8, 0x5du8, 0xefu8]);
            Ok(DataEntryTypes::Class(parse_class(reader, first == 0xc2)?))
        } else {
            assert(m@ != seq![0xa5u8, 0x5du8, 0xefu8] || !(first == 0xc2 || first == 0xc1)) by {
                if m@ == seq![0xa5u8, 0x5du8, 0xefu8] {
                    assert(m@[0] == 0xa5 && m@[1] == 0x5d && m@[2] == 0xef);
                }
            }
            Err(ParseError::Malformed(Malformed::DataEntryMagic))
        }
    }
}

/// The field, container-element and pair steps give back no bytes.
pub proof fn lemma_steps_no_growth(varsized: bool)
    ensures
        no_growth(|x: ReaderView| spec_field(x, varsized)),
        no_growth(|x: ReaderView| spec_container_field(x)),
        no_growth(|x: ReaderView| spec_container_pair(x)),
{
}

/// A data entry takes at least one byte of the window.
pub proof fn lemma_entry_advances(r: ReaderView)
    requires
        r.remaining >= 0,
    ensures
        spec_entry(r) matches Ok((_, r2)) ==> 0 <= r2.remaining < r.remaining,
{
    lemma_steps_no_growth(true);
    lemma_steps_no_growth(false);
    match spec_read_u8(r) {
        Ok((first, r1)) => {
            if first != 1 && first != 3 {
                match spec_read_bytes(r1, 3) {
                    Ok((m, r2)) => {
                        let v = first == 0xc2;
                        match spec_class(r2, v) {
                            Ok(_) => {
                                assert(spec_when(v, r2, spec_read_u8(r2), 0u8) matches Ok((_, q)) ==> 0 <= q.remaining <= r2.remaining);
                            },
                            Err(_) => {},
                        }
                        lemma_class_no_growth(r2, v);
                    },
                    Err(_) => {},
                }
            }
        },
        Err(_) => {},
    }
}

/// A class takes no bytes beyond its window.
pub proof fn lemma_class_no_growth(r: ReaderView, varsized: bool)
    requires
        r.remaining >= 0,
    ensures
        spec_class(r, varsized) matches Ok((_, r2)) ==> 0 <= r2.remaining <= r.remaining,
{
    lemma_steps_no_growth(varsized);
    let p = |x: ReaderView| spec_field(x, varsized);
    match spec_when(varsized, r, spec_read_u8(r), 0u8) {
        Ok((presence, r1)) => match spec_when(
            has_part(varsized, presence, 1),
            r1,
            pmap(spec_read_u32(r1), |v: u32| extends_of(v)),
            None,
        ) {
            Ok((_, r2)) => match spec_when(has_part(varsized, presence, 2), r2, spec_read_u32(r2), 0u32) {
                Ok((_, r3)) => match spec_when(
                    has_part(varsized, presence, 4),
                    r3,
                    pmap(spec_read_u32(r3), |v: u32| nonzero_symbol(v)),
                    None,
                ) {
                    Ok((_, r4)) => match spec_when(
                        has_part(varsized, presence, 8),
                        r4,
                        pmap(spec_read_u32(r4), |v: u32| nonzero_symbol(v)),
                        None,
                    ) {
                        Ok((_, r5)) => match spec_read_u16(r5) {
                            Ok((_, r6)) => {
                                let count: PResult<u16> = if varsized {
                                    spec_read_u16(r6)
                                } else {
                                    pmap(spec_read_u8(r6), |b: u8| b as u16)
                                };
                                match count {
                                    Ok((n, r7)) => {
                                        lemma_repeat_no_growth(p, r7, n as nat);
                                    },
                                    Err(_) => {},
                                }
                            },
                            Err(_) => {},
                        },
                        Err(_) => {},
                    },
                    Err(_) => {},
                },
                Err(_) => {},
            },
            Err(_) => {},
        },
        Err(_) => {},
    }
}

/// The entries of a data section, to its end, each at its window position.
pub open spec fn spec_data_entries(r: ReaderView, acc: Map<u32, DataEntryView>) -> PResult<Map<u32, DataEntryView>>
    decreases r.remaining,
{
    if r.remaining <= 0 {
        Ok((acc, r))
    } else {
        match spec_entry(r) {
            Err(e) => Err(e),
            Ok((e, r2)) => {
                proof { lemma_entry_advances(r); }
                spec_data_entries(r2, acc.insert(offset_of(r), e))
            },
        }
    }
}

/// A data section: its entries.
pub open spec fn spec_data(r: ReaderView) -> PResult<SectionKindView> {
    match spec_data_entries(r, Map::empty()) {
        Ok((m, r2)) => Ok((SectionKindView::Data(m), r2)),
        Err(e) => Err(e),
    }
}

pub struct DataParser;

impl DataParser {
    pub fn parse(&self, reader: &mut BinaryReader) -> (res: Result<SectionKind, ParseError>)
        ensures
            parsed_as(spec_data(old(reader)@), res, final(reader)@),
    {
        let mut entries: HashMap<u32, DataEntryTypes> = HashMap::new();
        assert(data_view(entries@) =~= Map::empty());
        while reader.has_remaining()
            invariant
                spec_data_entries(reader@, data_view(entries@)) == spec_data_entries(old(reader)@, Map::empty()),
            decreases reader@.remaining,
        {
            reader.well_formed();
            let ghost before = reader@;
            let addr = (reader.get_local_position() % 0x1_0000_0000) as u32;
            let entry = parse_entry(reader)?;
            proof { lemma_entry_advances(before); }
            let ghost v = entry@;
            let ghost m_before = entries@;
            entries.insert(addr, entry);
            assert(data_view(entries@) =~= data_view(m_before).insert(addr, v));
        }
        Ok(SectionKind::Data(entries))
    }
}

} // verus!
