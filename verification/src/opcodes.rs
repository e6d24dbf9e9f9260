use vstd::prelude::*;

use crate::addressed_container::{strictly_increasing, AddressedContainer, SparseMap};
use crate::binary_reader::{
    pmap, spec_read_i16, spec_read_i32, spec_read_i8, spec_read_u32, spec_read_u64, spec_read_u8,
    spec_take, BinaryReader, PResult, ReaderView,
};
use crate::constants::{CodeAddress, DataAddress, SymbolAddress};
use crate::error::{Malformed, ParseError};
use crate::text::spec_decimal;
use crate::traits::{AddressResolver, DisplayWithResolver, ResolvedNames};

verus! {

/// A Monkey C bytecode instruction with its operands. The operands of
/// `FPUSH` and `DPUSH` are the IEEE-754 bit patterns of their values.
#[derive(PartialEq, Eq, Clone, Copy, Debug, Structural)]
pub enum Opcode {
    NOP,
    INCSP(i32),
    POPV,
    ADD,
    SUB,
    MUL,
    DIV,
    AND,
    OR,
    MOD,
    SHL,
    SHR,
    XOR,
    GETV,
    PUTV,
    INVOKEM(u8),
    AGETV,
    APUTV,
    LGETV(u8),
    LPUTV(u8),
    NEWA,
    NEWC,
    RETURN,
    RET,
    NEWS(DataAddress),
    GOTO(CodeAddress),
    EQ,
    LT,
    LTE,
    GT,
    GTE,
    NE,
    ISNULL,
    ISA,
    CANHAZPLZ,
    JSR(CodeAddress),
    TS,
    IPUSH(i32),
    FPUSH(u32),
    SPUSH(SymbolAddress),
    BT(CodeAddress),
    BF(CodeAddress),
    FRPUSH,
    BPUSH(i32),
    NPUSH,
    INV,
    DUP(u8),
    NEWD,
    GETM,
    LPUSH(u64),
    DPUSH(u64),
    THROW,
    CPUSH(char),
    ARGC(usize),
    NEWBA,
    IPUSHZ,
    IPUSH1(i8),
    IPUSH2(i16),
    IPUSH3(i32),
    FPUSHZ,
    LPUSHZ,
    DPUSHZ,
    BTPUSH,
    BFPUSH,
    APUSH(DataAddress),
    BAPUSH(DataAddress),
    HPUSH(DataAddress),
    GETSELFV(SymbolAddress),
    GETSELF,
    GETMV(SymbolAddress, SymbolAddress),
    GETLOCALV(u8, SymbolAddress),
    GETSV(SymbolAddress),
    INVOKEMZ,
    APUTVDUP,
    ARGCINCSP(usize, u8),
    ISNOTNULL,
}

/// The instruction that an opcode byte denotes, with its operands at their
/// default values; `None` for a byte that is no opcode.
pub open spec fn spec_opcode_template(byte: u8) -> Option<Opcode> {
    if byte == 0 {
        Some(Opcode::NOP)
    } else if byte == 1 {
        Some(Opcode::INCSP(0))
    } else if byte == 2 {
        Some(Opcode::POPV)
    } else if byte == 3 {
        Some(Opcode::ADD)
    } else if byte == 4 {
        Some(Opcode::SUB)
    } else if byte == 5 {
        Some(Opcode::MUL)
    } else if byte == 6 {
        Some(Opcode::DIV)
    } else if byte == 7 {
        Some(Opcode::AND)
    } else if byte == 8 {
        Some(Opcode::OR)
    } else if byte == 9 {
        Some(Opcode::MOD)
    } else if byte == 10 {
        Some(Opcode::SHL)
    } else if byte == 11 {
        Some(Opcode::SHR)
    } else if byte == 12 {
        Some(Opcode::XOR)
    } else if byte == 13 {
        Some(Opcode::GETV)
    } else if byte == 14 {
        Some(Opcode::PUTV)
    } else if byte == 15 {
        Some(Opcode::INVOKEM(0))
    } else if byte == 16 {
        Some(Opcode::AGETV)
    } else if byte == 17 {
        Some(Opcode::APUTV)
    } else if byte == 18 {
        Some(Opcode::LGETV(0))
    } else if byte == 19 {
        Some(Opcode::LPUTV(0))
    } else if byte == 20 {
        Some(Opcode::NEWA)
    } else if byte == 21 {
        Some(Opcode::NEWC)
    } else if byte == 22 {
        Some(Opcode::RETURN)
    } else if byte == 23 {
        Some(Opcode::RET)
    } else if byte == 24 {
        Some(Opcode::NEWS(DataAddress(0)))
    } else if byte == 25 {
        Some(Opcode::GOTO(CodeAddress(0)))
    } else if byte == 26 {
        Some(Opcode::EQ)
    } else if byte == 27 {
        Some(Opcode::LT)
    } else if byte == 28 {
        Some(Opcode::LTE)
    } else if byte == 29 {
        Some(Opcode::GT)
    } else if byte == 30 {
        Some(Opcode::GTE)
    } else if byte == 31 {
        Some(Opcode::NE)
    } else if byte == 32 {
        Some(Opcode::ISNULL)
    } else if byte == 33 {
        Some(Opcode::ISA)
    } else if byte == 34 {
        Some(Opcode::CANHAZPLZ)
    } else if byte == 35 {
        Some(Opcode::JSR(CodeAddress(0)))
    } else if byte == 36 {
        Some(Opcode::TS)
    } else if byte == 37 {
        Some(Opcode::IPUSH(0))
    } else if byte == 38 {
        Some(Opcode::FPUSH(0))
    } else if byte == 39 {
        Some(Opcode::SPUSH(SymbolAddress(0)))
    } else if byte == 40 {
        Some(Opcode::BT(CodeAddress(0)))
    } else if byte == 41 {
        Some(Opcode::BF(CodeAddress(0)))
    } else if byte == 42 {
        Some(Opcode::FRPUSH)
    } else if byte == 43 {
        Some(Opcode::BPUSH(0))
    } else if byte == 44 {
        Some(Opcode::NPUSH)
    } else if byte == 45 {
        Some(Opcode::INV)
    } else if byte == 46 {
        Some(Opcode::DUP(0))
    } else if byte == 47 {
        Some(Opcode::NEWD)
    } else if byte == 48 {
        Some(Opcode::GETM)
    } else if byte == 49 {
        Some(Opcode::LPUSH(0))
    } else if byte == 50 {
        Some(Opcode::DPUSH(0))
    } else if byte == 51 {
        Some(Opcode::THROW)
    } else if byte == 52 {
        Some(Opcode::CPUSH('\0'))
    } else if byte == 53 {
        Some(Opcode::ARGC(0))
    } else if byte == 54 {
        Some(Opcode::NEWBA)
    } else if byte == 55 {
        Some(Opcode::IPUSHZ)
    } else if byte == 56 {
        Some(Opcode::IPUSH1(0))
    } else if byte == 57 {
        Some(Opcode::IPUSH2(0))
    } else if byte == 58 {
        Some(Opcode::IPUSH3(0))
    } else if byte == 59 {
        Some(Opcode::FPUSHZ)
    } else if byte == 60 {
        Some(Opcode::LPUSHZ)
    } else if byte == 61 {
        Some(Opcode::DPUSHZ)
    } else if byte == 62 {
        Some(Opcode::BTPUSH)
    } else if byte == 63 {
        Some(Opcode::BFPUSH)
    } else if byte == 64 {
        Some(Opcode::APUSH(DataAddress(0)))
    } else if byte == 65 {
        Some(Opcode::BAPUSH(DataAddress(0)))
    } else if byte == 66 {
        Some(Opcode::HPUSH(DataAddress(0)))
    } else if byte == 67 {
        Some(Opcode::GETSELFV(SymbolAddress(0)))
    } else if byte == 68 {
        Some(Opcode::GETSELF)
    } else if byte == 69 {
        Some(Opcode::GETMV(SymbolAddress(0), SymbolAddress(0)))
    } else if byte == 70 {
        Some(Opcode::GETLOCALV(0, SymbolAddress(0)))
    } else if byte == 71 {
        Some(Opcode::GETSV(SymbolAddress(0)))
    } else if byte == 72 {
        Some(Opcode::INVOKEMZ)
    } else if byte == 73 {
        Some(Opcode::APUTVDUP)
    } else if byte == 74 {
        Some(Opcode::ARGCINCSP(0, 0))
    } else if byte == 75 {
        Some(Opcode::ISNOTNULL)
    } else {
        None
    }
}

/// The number by which the instruction set encodes an instruction: the
/// byte that introduces it in the bytecode.
pub open spec fn opcode_number(op: Opcode) -> u8 {
    match op {
        Opcode::NOP => 0,
        Opcode::INCSP(..) => 1,
        Opcode::POPV => 2,
        Opcode::ADD => 3,
        Opcode::SUB => 4,
        Opcode::MUL => 5,
        Opcode::DIV => 6,
        Opcode::AND => 7,
        Opcode::OR => 8,
        Opcode::MOD => 9,
        Opcode::SHL => 10,
        Opcode::SHR => 11,
        Opcode::XOR => 12,
        Opcode::GETV => 13,
        Opcode::PUTV => 14,
        Opcode::INVOKEM(..) => 15,
        Opcode::AGETV => 16,
        Opcode::APUTV => 17,
        Opcode::LGETV(..) => 18,
        Opcode::LPUTV(..) => 19,
        Opcode::NEWA => 20,
        Opcode::NEWC => 21,
        Opcode::RETURN => 22,
        Opcode::RET => 23,
        Opcode::NEWS(..) => 24,
        Opcode::GOTO(..) => 25,
        Opcode::EQ => 26,
        Opcode::LT => 27,
        Opcode::LTE => 28,
        Opcode::GT => 29,
        Opcode::GTE => 30,
        Opcode::NE => 31,
        Opcode::ISNULL => 32,
        Opcode::ISA => 33,
        Opcode::CANHAZPLZ => 34,
        Opcode::JSR(..) => 35,
        Opcode::TS => 36,
        Opcode::IPUSH(..) => 37,
        Opcode::FPUSH(..) => 38,
        Opcode::SPUSH(..) => 39,
        Opcode::BT(..) => 40,
        Opcode::BF(..) => 41,
        Opcode::FRPUSH => 42,
        Opcode::BPUSH(..) => 43,
        Opcode::NPUSH => 44,
        Opcode::INV => 45,
        Opcode::DUP(..) => 46,
        Opcode::NEWD => 47,
        Opcode::GETM => 48,
        Opcode::LPUSH(..) => 49,
        Opcode::DPUSH(..) => 50,
        Opcode::THROW => 51,
        Opcode::CPUSH(..) => 52,
        Opcode::ARGC(..) => 53,
        Opcode::NEWBA => 54,
        Opcode::IPUSHZ => 55,
        Opcode::IPUSH1(..) => 56,
        Opcode::IPUSH2(..) => 57,
        Opcode::IPUSH3(..) => 58,
        Opcode::FPUSHZ => 59,
        Opcode::LPUSHZ => 60,
        Opcode::DPUSHZ => 61,
        Opcode::BTPUSH => 62,
        Opcode::BFPUSH => 63,
        Opcode::APUSH(..) => 64,
        Opcode::BAPUSH(..) => 65,
        Opcode::HPUSH(..) => 66,
        Opcode::GETSELFV(..) => 67,
        Opcode::GETSELF => 68,
        Opcode::GETMV(..) => 69,
        Opcode::GETLOCALV(..) => 70,
        Opcode::GETSV(..) => 71,
        Opcode::INVOKEMZ => 72,
        Opcode::APUTVDUP => 73,
        Opcode::ARGCINCSP(..) => 74,
        Opcode::ISNOTNULL => 75,
    }
}

/// Decoding an opcode byte gives the instruction that the byte encodes:
/// bytes 0 to 75 are instructions, and each gives the instruction whose
/// number it is; every other byte is none.
pub proof fn lemma_template_is_numbered(byte: u8)
    ensures
        spec_opcode_template(byte) is Some <==> byte <= 75,
        spec_opcode_template(byte) matches Some(op) ==> opcode_number(op) == byte,
{
}

/// The instruction that an opcode byte denotes, with default operands.
pub fn opcode_template(byte: u8) -> (r: Option<Opcode>)
    ensures
        r == spec_opcode_template(byte),
{
    match byte {
        0 => Some(Opcode::NOP),
        1 => Some(Opcode::INCSP(0)),
        2 => Some(Opcode::POPV),
        3 => Some(Opcode::ADD),
        4 => Some(Opcode::SUB),
        5 => Some(Opcode::MUL),
        6 => Some(Opcode::DIV),
        7 => Some(Opcode::AND),
        8 => Some(Opcode::OR),
        9 => Some(Opcode::MOD),
        10 => Some(Opcode::SHL),
        11 => Some(Opcode::SHR),
        12 => Some(Opcode::XOR),
        13 => Some(Opcode::GETV),
        14 => Some(Opcode::PUTV),
        15 => Some(Opcode::INVOKEM(0)),
        16 => Some(Opcode::AGETV),
        17 => Some(Opcode::APUTV),
        18 => Some(Opcode::LGETV(0)),
        19 => Some(Opcode::LPUTV(0)),
        20 => Some(Opcode::NEWA),
        21 => Some(Opcode::NEWC),
        22 => Some(Opcode::RETURN),
        23 => Some(Opcode::RET),
        24 => Some(Opcode::NEWS(DataAddress(0))),
        25 => Some(Opcode::GOTO(CodeAddress(0))),
        26 => Some(Opcode::EQ),
        27 => Some(Opcode::LT),
        28 => Some(Opcode::LTE),
        29 => Some(Opcode::GT),
        30 => Some(Opcode::GTE),
        31 => Some(Opcode::NE),
        32 => Some(Opcode::ISNULL),
        33 => Some(Opcode::ISA),
        34 => Some(Opcode::CANHAZPLZ),
        35 => Some(Opcode::JSR(CodeAddress(0))),
        36 => Some(Opcode::TS),
        37 => Some(Opcode::IPUSH(0)),
        38 => Some(Opcode::FPUSH(0)),
        39 => Some(Opcode::SPUSH(SymbolAddress(0))),
        40 => Some(Opcode::BT(CodeAddress(0))),
        41 => Some(Opcode::BF(CodeAddress(0))),
        42 => Some(Opcode::FRPUSH),
        43 => Some(Opcode::BPUSH(0)),
        44 => Some(Opcode::NPUSH),
        45 => Some(Opcode::INV),
        46 => Some(Opcode::DUP(0)),
        47 => Some(Opcode::NEWD),
        48 => Some(Opcode::GETM),
        49 => Some(Opcode::LPUSH(0)),
        50 => Some(Opcode::DPUSH(0)),
        51 => Some(Opcode::THROW),
        52 => Some(Opcode::CPUSH('\0')),
        53 => Some(Opcode::ARGC(0)),
        54 => Some(Opcode::NEWBA),
        55 => Some(Opcode::IPUSHZ),
        56 => Some(Opcode::IPUSH1(0)),
        57 => Some(Opcode::IPUSH2(0)),
        58 => Some(Opcode::IPUSH3(0)),
        59 => Some(Opcode::FPUSHZ),
        60 => Some(Opcode::LPUSHZ),
        61 => Some(Opcode::DPUSHZ),
        62 => Some(Opcode::BTPUSH),
        63 => Some(Opcode::BFPUSH),
        64 => Some(Opcode::APUSH(DataAddress(0))),
        65 => Some(Opcode::BAPUSH(DataAddress(0))),
        66 => Some(Opcode::HPUSH(DataAddress(0))),
        67 => Some(Opcode::GETSELFV(SymbolAddress(0))),
        68 => Some(Opcode::GETSELF),
        69 => Some(Opcode::GETMV(SymbolAddress(0), SymbolAddress(0))),
        70 => Some(Opcode::GETLOCALV(0, SymbolAddress(0))),
        71 => Some(Opcode::GETSV(SymbolAddress(0))),
        72 => Some(Opcode::INVOKEMZ),
        73 => Some(Opcode::APUTVDUP),
        74 => Some(Opcode::ARGCINCSP(0, 0)),
        75 => Some(Opcode::ISNOTNULL),
        _ => None,
    }
}

/// Whether an instruction carries operands that follow its opcode byte.
pub open spec fn opcode_has_args(op: Opcode) -> bool {
    match op {
        Opcode::INCSP(..) => true,
        Opcode::INVOKEM(..) => true,
        Opcode::LGETV(..) => true,
        Opcode::LPUTV(..) => true,
        Opcode::NEWS(..) => true,
        Opcode::GOTO(..) => true,
        Opcode::JSR(..) => true,
        Opcode::IPUSH(..) => true,
        Opcode::FPUSH(..) => true,
        Opcode::SPUSH(..) => true,
        Opcode::BT(..) => true,
        Opcode::BF(..) => true,
        Opcode::BPUSH(..) => true,
        Opcode::DUP(..) => true,
        Opcode::LPUSH(..) => true,
        Opcode::DPUSH(..) => true,
        Opcode::CPUSH(..) => true,
        Opcode::ARGC(..) => true,
        Opcode::IPUSH1(..) => true,
        Opcode::IPUSH2(..) => true,
        Opcode::IPUSH3(..) => true,
        Opcode::APUSH(..) => true,
        Opcode::BAPUSH(..) => true,
        Opcode::HPUSH(..) => true,
        Opcode::GETSELFV(..) => true,
        Opcode::GETMV(..) => true,
        Opcode::GETLOCALV(..) => true,
        Opcode::GETSV(..) => true,
        Opcode::ARGCINCSP(..) => true,
        _ => false,
    }
}

/// The target of a relative branch: a signed 16-bit offset from the position
/// after the offset, taken modulo 2^32.
pub open spec fn spec_branch_target(r: ReaderView) -> PResult<CodeAddress> {
    match spec_read_i16(r) {
        Ok((off, r1)) => Ok((CodeAddress(((r1.local_position + off) % 0x1_0000_0000) as u32), r1)),
        Err(e) => Err(e),
    }
}

/// The instruction `op` with its operands read from `r`.
pub open spec fn spec_get_args(r: ReaderView, op: Opcode) -> PResult<Opcode> {
    match op {
        Opcode::IPUSH(_) => pmap(spec_read_i32(r), |v: i32| Opcode::IPUSH(v)),
        Opcode::FPUSH(_) => pmap(spec_read_u32(r), |v: u32| Opcode::FPUSH(v)),
        Opcode::SPUSH(_) => pmap(spec_read_u32(r), |v: u32| Opcode::SPUSH(SymbolAddress(v))),
        Opcode::CPUSH(_) => pmap(spec_read_u32(r), |v: u32| Opcode::CPUSH(((v % 256) as u8) as char)),
        Opcode::GETSELFV(_) => pmap(spec_read_u32(r), |v: u32| Opcode::GETSELFV(SymbolAddress(v))),
        Opcode::GETSV(_) => pmap(spec_read_u32(r), |v: u32| Opcode::GETSV(SymbolAddress(v))),
        Opcode::LGETV(_) => pmap(spec_read_u8(r), |v: u8| Opcode::LGETV(v)),
        Opcode::LPUTV(_) => pmap(spec_read_u8(r), |v: u8| Opcode::LPUTV(v)),
        Opcode::INVOKEM(_) => pmap(spec_read_u8(r), |v: u8| Opcode::INVOKEM(v)),
        Opcode::ARGC(_) => pmap(spec_read_u8(r), |v: u8| Opcode::ARGC(v as usize)),
        Opcode::INCSP(_) => pmap(spec_read_u8(r), |v: u8| Opcode::INCSP(v as i32)),
        Opcode::BPUSH(_) => pmap(spec_read_u8(r), |v: u8| Opcode::BPUSH(v as i32)),
        Opcode::DUP(_) => pmap(spec_read_u8(r), |v: u8| Opcode::DUP(v)),
        Opcode::BT(_) => pmap(spec_branch_target(r), |t: CodeAddress| Opcode::BT(t)),
        Opcode::BF(_) => pmap(spec_branch_target(r), |t: CodeAddress| Opcode::BF(t)),
        Opcode::GOTO(_) => pmap(spec_branch_target(r), |t: CodeAddress| Opcode::GOTO(t)),
        Opcode::JSR(_) => pmap(spec_branch_target(r), |t: CodeAddress| Opcode::JSR(t)),
        Opcode::NEWS(_) => pmap(spec_read_u32(r), |v: u32| Opcode::NEWS(DataAddress(v))),
        Opcode::ARGCINCSP(_, _) => match spec_read_u8(r) {
            Ok((a, r1)) => pmap(spec_read_u8(r1), |b: u8| Opcode::ARGCINCSP(a as usize, b)),
            Err(e) => Err(e),
        },
        Opcode::GETLOCALV(_, _) => match spec_read_u8(r) {
            Ok((a, r1)) => pmap(spec_read_u32(r1), |b: u32| Opcode::GETLOCALV(a, SymbolAddress(b))),
            Err(e) => Err(e),
        },
        Opcode::IPUSH1(_) => pmap(spec_read_i8(r), |v: i8| Opcode::IPUSH1(v)),
        Opcode::IPUSH2(_) => pmap(spec_read_i16(r), |v: i16| Opcode::IPUSH2(v)),
        Opcode::IPUSH3(_) => match spec_read_i8(r) {
            Ok((a, r1)) => match spec_read_u8(r1) {
                Ok((b, r2)) => pmap(
                    spec_read_u8(r2),
                    |c: u8| Opcode::IPUSH3((a * 0x1_0000 + b * 0x100 + c) as i32),
                ),
                Err(e) => Err(e),
            },
            Err(e) => Err(e),
        },
        Opcode::HPUSH(_) => pmap(spec_read_u32(r), |v: u32| Opcode::HPUSH(DataAddress(v))),
        Opcode::BAPUSH(_) => pmap(spec_read_u32(r), |v: u32| Opcode::BAPUSH(DataAddress(v))),
        Opcode::APUSH(_) => pmap(spec_read_u32(r), |v: u32| Opcode::APUSH(DataAddress(v))),
        Opcode::GETMV(_, _) => match spec_read_u32(r) {
            Ok((a, r1)) => pmap(
                spec_read_u32(r1),
                |b: u32| Opcode::GETMV(SymbolAddress(a), SymbolAddress(b)),
            ),
            Err(e) => Err(e),
        },
        Opcode::DPUSH(_) => pmap(spec_read_u64(r), |v: u64| Opcode::DPUSH(v)),
        Opcode::LPUSH(_) => pmap(spec_read_u64(r), |v: u64| Opcode::LPUSH(v)),
        _ => Ok((op, r)),
    }
}

/// Reads the relative branch target that follows a branch opcode.
fn read_branch_target(reader: &mut BinaryReader) -> (res: Result<CodeAddress, ParseError>)
    ensures
        match spec_branch_target(old(reader)@) {
            Ok((t, r)) => res == Ok::<CodeAddress, ParseError>(t) && final(reader)@ == r,
            Err(e) => res == Err::<CodeAddress, ParseError>(e),
        },
{
    let offset = reader.read_i16()?;
    let pos = reader.get_local_position();
    let low = (pos % 0x1_0000_0000) as i64 + offset as i64;
    let target: u32 = if low < 0 {
        (low + 0x1_0000_0000) as u32
    } else if low >= 0x1_0000_0000 {
        (low - 0x1_0000_0000) as u32
    } else {
        low as u32
    };
    assert(target == (pos + offset) % 0x1_0000_0000) by {
        assert(0x1_0000_0000 * (pos / 0x1_0000_0000) + pos % 0x1_0000_0000 == pos);
    }
    Ok(CodeAddress::new_from_local(target))
}

/// Reads the operands of `opcode`, which must be an instruction that has
/// operands.
pub fn get_args(reader: &mut BinaryReader, opcode: Opcode) -> (res: Result<Opcode, ParseError>)
    requires
        opcode_has_args(opcode),
    ensures
        match spec_get_args(old(reader)@, opcode) {
            Ok((op, r)) => res == Ok::<Opcode, ParseError>(op) && final(reader)@ == r,
            Err(e) => res == Err::<Opcode, ParseError>(e),
        },
{
    match opcode {
        Opcode::IPUSH(_) => Ok(Opcode::IPUSH(reader.read_i32()?)),
        Opcode::FPUSH(_) => Ok(Opcode::FPUSH(reader.read_u32()?)),
        Opcode::SPUSH(_) => Ok(Opcode::SPUSH(SymbolAddress::new_from_local(reader.read_u32()?))),
        Opcode::CPUSH(_) => {
            let v = reader.read_u32()?;
            let b = (v % 256) as u8;
            Ok(Opcode::CPUSH(b as char))
        },
        Opcode::GETSELFV(_) => Ok(Opcode::GETSELFV(SymbolAddress::new_from_local(reader.read_u32()?))),
        Opcode::GETSV(_) => Ok(Opcode::GETSV(SymbolAddress::new_from_local(reader.read_u32()?))),
        Opcode::LGETV(_) => Ok(Opcode::LGETV(reader.read_u8()?)),
        Opcode::LPUTV(_) => Ok(Opcode::LPUTV(reader.read_u8()?)),
        Opcode::INVOKEM(_) => Ok(Opcode::INVOKEM(reader.read_u8()?)),
        Opcode::ARGC(_) => Ok(Opcode::ARGC(reader.read_u8()? as usize)),
        Opcode::INCSP(_) => Ok(Opcode::INCSP(reader.read_u8()? as i32)),
        Opcode::BPUSH(_) => Ok(Opcode::BPUSH(reader.read_u8()? as i32)),
        Opcode::DUP(_) => Ok(Opcode::DUP(reader.read_u8()?)),
        Opcode::BT(_) => Ok(Opcode::BT(read_branch_target(reader)?)),
        Opcode::BF(_) => Ok(Opcode::BF(read_branch_target(reader)?)),
        Opcode::GOTO(_) => Ok(Opcode::GOTO(read_branch_target(reader)?)),
        Opcode::JSR(_) => Ok(Opcode::JSR(read_branch_target(reader)?)),
        Opcode::NEWS(_) => Ok(Opcode::NEWS(DataAddress::new_from_local(reader.read_u32()?))),
        Opcode::ARGCINCSP(_, _) => {
            let a = reader.read_u8()?;
            let b = reader.read_u8()?;
            Ok(Opcode::ARGCINCSP(a as usize, b))
        },
        Opcode::GETLOCALV(_, _) => {
            let a = reader.read_u8()?;
            let b = reader.read_u32()?;
            Ok(Opcode::GETLOCALV(a, SymbolAddress::new_from_local(b)))
        },
        Opcode::IPUSH1(_) => Ok(Opcode::IPUSH1(reader.read_i8()?)),
        Opcode::IPUSH2(_) => Ok(Opcode::IPUSH2(reader.read_i16()?)),
        Opcode::IPUSH3(_) => {
            let a = reader.read_i8()?;
            let b = reader.read_u8()?;
            let c = reader.read_u8()?;
            Ok(Opcode::IPUSH3((a as i32) * 0x1_0000 + (b as i32) * 0x100 + (c as i32)))
        },
        Opcode::HPUSH(_) => Ok(Opcode::HPUSH(DataAddress::new_from_local(reader.read_u32()?))),
        Opcode::BAPUSH(_) => Ok(Opcode::BAPUSH(DataAddress::new_from_local(reader.read_u32()?))),
        Opcode::APUSH(_) => Ok(Opcode::APUSH(DataAddress::new_from_local(reader.read_u32()?))),
        Opcode::GETMV(_, _) => {
            let a = reader.read_u32()?;
            let b = reader.read_u32()?;
            Ok(Opcode::GETMV(SymbolAddress::new_from_local(a), SymbolAddress::new_from_local(b)))
        },
        Opcode::DPUSH(_) => Ok(Opcode::DPUSH(reader.read_u64()?)),
        Opcode::LPUSH(_) => Ok(Opcode::LPUSH(reader.read_u64()?)),
        _ => Ok(opcode),
    }
}

/// One instruction: the opcode byte `byte` followed by its operands.
pub open spec fn spec_decode(byte: u8, r: ReaderView) -> PResult<Opcode> {
    match spec_opcode_template(byte) {
        None => Err(ParseError::InvalidOpcode(byte)),
        Some(op) => if opcode_has_args(op) {
            spec_get_args(r, op)
        } else {
            Ok((op, r))
        },
    }
}

/// Reading an instruction's operands keeps the instruction: what is decoded
/// from an opcode byte is the instruction that the byte encodes.
pub proof fn lemma_decode_is_numbered(byte: u8, r: ReaderView)
    ensures
        spec_decode(byte, r) matches Ok((op, _)) ==> opcode_number(op) == byte,
{
    lemma_template_is_numbered(byte);
}

/// Decoding an instruction never gives back bytes of the window.
pub proof fn lemma_decode_advances(byte: u8, r: ReaderView)
    requires
        r.remaining >= 0,
    ensures
        spec_decode(byte, r) matches Ok((_, r2)) ==> {
            &&& 0 <= r2.remaining <= r.remaining
            &&& r2.local_position - r.local_position == r.remaining - r2.remaining
            &&& r2.pos - r2.local_position == r.pos - r.local_position
            &&& r2.data == r.data
        },
{
}

/// The byte `i` places after the reader's position.
pub open spec fn byte_after(r: ReaderView, i: int) -> int {
    r.data[r.pos + i] as int
}

/// The big-endian word of the four bytes from `i` places after the
/// reader's position.
pub open spec fn word_after(r: ReaderView, i: int) -> int {
    byte_after(r, i) * 0x100_0000 + byte_after(r, i + 1) * 0x1_0000 + byte_after(r, i + 2) * 0x100 + byte_after(r, i + 3)
}

/// The signed value of a 16-bit two's complement word.
pub open spec fn signed16(w: int) -> int {
    if w < 0x8000 { w } else { w - 0x1_0000 }
}

/// An instruction's operands are the bytes that follow its opcode byte: a
/// one-byte operand is that byte (signed for `IPUSH1`); `ARGCINCSP` takes
/// the argument count and then the local count; `IPUSH2` and `IPUSH` are
/// big-endian words of two and four bytes; a jump target is a signed
/// 16-bit offset from the address after the offset.
pub proof fn lemma_operands_from_bytes(byte: u8, r: ReaderView)
    requires
        r.wf(),
    ensures
        spec_decode(byte, r) matches Ok((op, r2)) ==> match op {
            Opcode::ARGC(n) => n == byte_after(r, 0),
            Opcode::ARGCINCSP(a, c) => a == byte_after(r, 0) && c == byte_after(r, 1),
            Opcode::LGETV(i) | Opcode::LPUTV(i) | Opcode::INVOKEM(i) | Opcode::DUP(i) => i == byte_after(r, 0),
            Opcode::INCSP(i) | Opcode::BPUSH(i) => i == byte_after(r, 0),
            Opcode::SPUSH(a) | Opcode::GETSELFV(a) | Opcode::GETSV(a) => a.0 == word_after(r, 0),
            Opcode::NEWS(a) | Opcode::HPUSH(a) | Opcode::APUSH(a) | Opcode::BAPUSH(a) => a.0 == word_after(r, 0),
            Opcode::GETLOCALV(i, a) => i == byte_after(r, 0) && a.0 == word_after(r, 1),
            Opcode::GETMV(a, b) => a.0 == word_after(r, 0) && b.0 == word_after(r, 4),
            Opcode::FPUSH(v) => v == word_after(r, 0),
            Opcode::CPUSH(c) => c as int == byte_after(r, 3),
            Opcode::LPUSH(v) | Opcode::DPUSH(v) => v == word_after(r, 0) * 0x1_0000_0000 + word_after(r, 4),
            Opcode::IPUSH1(v) => v == signed16(byte_after(r, 0) * 0x100) / 0x100,
            Opcode::IPUSH2(v) => v == signed16(byte_after(r, 0) * 0x100 + byte_after(r, 1)),
            Opcode::IPUSH(v) => (v + 0x1_0000_0000) % 0x1_0000_0000 == byte_after(r, 0) * 0x100_0000
                + byte_after(r, 1) * 0x1_0000 + byte_after(r, 2) * 0x100 + byte_after(r, 3),
            Opcode::GOTO(t) | Opcode::BT(t) | Opcode::BF(t) | Opcode::JSR(t) => t.0 as int == (r.local_position + 2
                + signed16(byte_after(r, 0) * 0x100 + byte_after(r, 1))) % 0x1_0000_0000,
            _ => true,
        },
{
    lemma_template_is_numbered(byte);
}

/// Each instruction that a stream decodes is the one that the byte at its
/// address (counted from the start of the window) encodes.
pub proof fn lemma_stream_is_numbered(r: ReaderView)
    requires
        r.wf(),
    ensures
        spec_parse_stream(r) matches Ok(((ops, addrs), _)) ==> {
            &&& ops.len() == addrs.len()
            &&& forall|i: int| 0 <= i < ops.len() ==> opcode_number(#[trigger] ops[i]) == r.data[r.pos - r.local_position + addrs[i]]
        },
    decreases r.remaining,
{
    match spec_read_u8(r) {
        Err(_) => {},
        Ok((byte, r1)) => {
            assert(r.pos + 1 <= r.data.len() && 1 <= r.remaining);
            let b = r.data.subrange(r.pos, r.pos + 1);
            assert(crate::binary_reader::spec_read_bytes(r, 1) == Ok::<(Seq<u8>, ReaderView), ParseError>((b, crate::binary_reader::advance(r, 1))));
            assert(byte == b[0]);
            if r1.local_position - 1 <= usize::MAX {
                lemma_decode_advances(byte, r1);
                lemma_decode_is_numbered(byte, r1);
                match spec_decode(byte, r1) {
                    Err(_) => {},
                    Ok((op, r2)) => {
                        lemma_stream_is_numbered(r2);
                        match spec_parse_stream(r2) {
                            Ok(((ops, addrs), _)) => {
                                let all = seq![op] + ops;
                                let alla = seq![(r1.local_position - 1) as usize] + addrs;
                                assert forall|i: int| 0 <= i < all.len() implies opcode_number(#[trigger] all[i]) == r.data[r.pos - r.local_position + alla[i]] by {
                                    if i == 0 {
                                        assert(byte == r.data[r.pos]);
                                    } else {
                                        assert(all[i] == ops[i - 1]);
                                        assert(alla[i] == addrs[i - 1]);
                                    }
                                }
                            },
                            Err(_) => {},
                        }
                    },
                }
            }
        },
    }
}

/// An instruction stream: instructions up to the first opcode byte that
/// cannot be read, each with the window position of its opcode byte.
pub open spec fn spec_parse_stream(r: ReaderView) -> PResult<(Seq<Opcode>, Seq<usize>)>
    decreases r.remaining,
{
    match spec_read_u8(r) {
        Err(_) => Ok(((seq![], seq![]), spec_take(r, 1).1)),
        Ok((byte, r1)) => if r1.local_position - 1 > usize::MAX {
            Err(ParseError::Malformed(Malformed::SizeOverflow))
        } else {
            match spec_decode(byte, r1) {
                Err(e) => Err(e),
                Ok((op, r2)) => {
                    proof { lemma_decode_advances(byte, r1); }
                    match spec_parse_stream(r2) {
                        Ok(((ops, addrs), rf)) => Ok(
                            (
                                (seq![op] + ops, seq![(r1.local_position - 1) as usize] + addrs),
                                rf,
                            ),
                        ),
                        Err(e) => Err(e),
                    }
                },
            }
        },
    }
}

impl Opcode {
    /// Decodes instructions until an opcode byte cannot be read; each
    /// instruction is kept at the position of its opcode byte.
    pub fn parse_stream(reader: &mut BinaryReader) -> (res: Result<AddressedContainer<Opcode>, ParseError>)
        ensures
            match spec_parse_stream(old(reader)@) {
                Ok(((ops, addrs), r)) => res matches Ok(c) && c@.items == ops && c@.addrs == addrs
                    && final(reader)@ == r,
                Err(e) => res matches Err(e2) && e2 == e,
            },
    {
        let ghost r0 = reader@;
        let mut opcodes: Vec<Opcode> = Vec::new();
        let mut addr_map: Vec<usize> = Vec::new();
        loop
            invariant_except_break
                match spec_parse_stream(reader@) {
                    Ok(((ops, addrs), rf)) => spec_parse_stream(r0) == Ok::<((Seq<Opcode>, Seq<usize>), ReaderView), ParseError>(
                        ((opcodes@ + ops, addr_map@ + addrs), rf),
                    ),
                    Err(e) => spec_parse_stream(r0) == Err::<((Seq<Opcode>, Seq<usize>), ReaderView), ParseError>(e),
                },
            invariant
                r0 == old(reader)@,
                opcodes@.len() == addr_map@.len(),
                strictly_increasing(addr_map@),
                forall|i: int| 0 <= i < addr_map@.len() ==> addr_map@[i] < reader@.local_position,
            ensures
                spec_parse_stream(r0) == Ok::<((Seq<Opcode>, Seq<usize>), ReaderView), ParseError>(
                    ((opcodes@, addr_map@), reader@),
                ),
            decreases reader@.remaining,
        {
            reader.well_formed();
            let ghost before = reader@;
            let byte = match reader.read_u8() {
                Ok(b) => b,
                Err(_) => {
                    assert(opcodes@ + seq![] =~= opcodes@);
                    assert(addr_map@ + seq![] =~= addr_map@);
                    break;
                },
            };
            let curpos = reader.get_local_position() - 1;
            let ghost r1 = reader@;
            assert(spec_read_u8(before) == Ok::<(u8, ReaderView), ParseError>((byte, r1)));
            if curpos > usize::MAX as u64 {
                assert(spec_parse_stream(before) == Err::<((Seq<Opcode>, Seq<usize>), ReaderView), ParseError>(
                    ParseError::Malformed(Malformed::SizeOverflow)));
                assert(spec_parse_stream(r0) == Err::<((Seq<Opcode>, Seq<usize>), ReaderView), ParseError>(
                    ParseError::Malformed(Malformed::SizeOverflow)));
                return Err(ParseError::Malformed(Malformed::SizeOverflow));
            }
            let instruction = match opcode_template(byte) {
                None => {
                    assert(spec_parse_stream(before) == Err::<((Seq<Opcode>, Seq<usize>), ReaderView), ParseError>(
                        ParseError::InvalidOpcode(byte)));
                    return Err(ParseError::InvalidOpcode(byte));
                },
                Some(op) => {
                    if opcode_is_extended(op) {
                        match get_args(reader, op) {
                            Ok(i) => i,
                            Err(e) => {
                                assert(spec_decode(byte, r1) == Err::<(Opcode, ReaderView), ParseError>(e));
                                assert(spec_parse_stream(before) == Err::<((Seq<Opcode>, Seq<usize>), ReaderView), ParseError>(e));
                                assert(spec_parse_stream(r0) == Err::<((Seq<Opcode>, Seq<usize>), ReaderView), ParseError>(e));
                                return Err(e);
                            },
                        }
                    } else {
                        op
                    }
                },
            };
            proof { lemma_decode_advances(byte, r1); }
            let ghost old_ops = opcodes@;
            let ghost old_addrs = addr_map@;
            opcodes.push(instruction);
            addr_map.push(curpos as usize);
            proof {
                match spec_parse_stream(reader@) {
                    Ok(((ops, addrs), rf)) => {
                        assert(old_ops + (seq![instruction] + ops) =~= opcodes@ + ops);
                        assert(old_addrs + (seq![curpos as usize] + addrs) =~= addr_map@ + addrs);
                    },
                    Err(e) => {},
                }
                assert forall|i: int, j: int| 0 <= i < j < addr_map@.len() implies addr_map@[i] < addr_map@[j] by {
                    if j < old_addrs.len() {
                        assert(old_addrs[i] < old_addrs[j]);
                    } else {
                        assert(old_addrs[i] < before.local_position);
                    }
                }
            }
        }
        Ok(AddressedContainer::new(opcodes, SparseMap::new_presorted(addr_map)))
    }
}

/// Whether an instruction carries operands; the executable form of
/// `opcode_has_args`.
pub fn opcode_is_extended(op: Opcode) -> (b: bool)
    ensures
        b == opcode_has_args(op),
{
    match op {
        Opcode::INCSP(..) | Opcode::INVOKEM(..) | Opcode::LGETV(..) | Opcode::LPUTV(..)
        | Opcode::NEWS(..) | Opcode::GOTO(..) | Opcode::JSR(..) | Opcode::IPUSH(..)
        | Opcode::FPUSH(..) | Opcode::SPUSH(..) | Opcode::BT(..) | Opcode::BF(..)
        | Opcode::BPUSH(..) | Opcode::DUP(..) | Opcode::LPUSH(..) | Opcode::DPUSH(..)
        | Opcode::CPUSH(..) | Opcode::ARGC(..) | Opcode::IPUSH1(..) | Opcode::IPUSH2(..)
        | Opcode::IPUSH3(..) | Opcode::APUSH(..) | Opcode::BAPUSH(..) | Opcode::HPUSH(..)
        | Opcode::GETSELFV(..) | Opcode::GETMV(..) | Opcode::GETLOCALV(..) | Opcode::GETSV(..)
        | Opcode::ARGCINCSP(..) => true,
        _ => false,
    }
}

/// The mnemonic and one operand's text.
fn with_operand(mnemonic: &str, operand: String) -> (s: String)
    ensures
        s@ == mnemonic@ + operand@,
{
    let mut s = String::from_str(mnemonic);
    s.append(operand.as_str());
    s
}

impl DisplayWithResolver for Opcode {
    /// The instructions that name symbols or data are written with the
    /// resolver's names; every other one as its `Debug` text.
    open spec fn spec_text(&self, names: ResolvedNames) -> Seq<char> {
        match *self {
            Opcode::SPUSH(s) => "SPUSH "@ + s.spec_text(names),
            Opcode::NEWS(d) => "NEWS "@ + d.spec_text(names),
            Opcode::GETSELFV(s) => "GETSELFV "@ + s.spec_text(names),
            Opcode::GETMV(s1, s2) => "GETMV "@ + s1.spec_text(names) + ", "@ + s2.spec_text(names),
            Opcode::GETLOCALV(idx, s) => "GETLOCALV "@ + spec_decimal(idx as nat) + ", "@ + s.spec_text(names),
            Opcode::GETSV(s) => "GETSV "@ + s.spec_text(names),
            Opcode::APUSH(d) => "APUSH "@ + d.spec_text(names),
            Opcode::BAPUSH(d) => "BAPUSH "@ + d.spec_text(names),
            Opcode::HPUSH(d) => "HPUSH "@ + d.spec_text(names),
            _ => self.spec_debug_text(),
        }
    }

    fn text_with_resolver<R: AddressResolver>(&self, resolver: &R) -> (s: String) {
        match self {
            Opcode::SPUSH(sym) => with_operand("SPUSH ", sym.text_with_resolver(resolver)),
            Opcode::NEWS(d) => with_operand("NEWS ", d.text_with_resolver(resolver)),
            Opcode::GETSELFV(sym) => with_operand("GETSELFV ", sym.text_with_resolver(resolver)),
            Opcode::GETMV(s1, s2) => {
                let mut s = with_operand("GETMV ", s1.text_with_resolver(resolver));
                s.append(", ");
                let t = s2.text_with_resolver(resolver);
                s.append(t.as_str());
                s
            },
            Opcode::GETLOCALV(idx, sym) => {
                let mut s = crate::text::prefixed_decimal("GETLOCALV ", *idx as usize);
                s.append(", ");
                let t = sym.text_with_resolver(resolver);
                s.append(t.as_str());
                s
            },
            Opcode::GETSV(sym) => with_operand("GETSV ", sym.text_with_resolver(resolver)),
            Opcode::APUSH(d) => with_operand("APUSH ", d.text_with_resolver(resolver)),
            Opcode::BAPUSH(d) => with_operand("BAPUSH ", d.text_with_resolver(resolver)),
            Opcode::HPUSH(d) => with_operand("HPUSH ", d.text_with_resolver(resolver)),
            _ => self.debug_text(),
        }
    }
}

impl crate::traits::TInstruction for Opcode {}

} // verus!
