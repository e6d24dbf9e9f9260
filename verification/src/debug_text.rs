//! The `Debug` text of the library's instructions, constants and errors:
//! each variant's name, then its operands in brackets.
use vstd::prelude::*;

use crate::disassembler::DisassemblyError;
use crate::opcodes::Opcode;
use crate::ssa::{ImmediateValue, SSAError};
use crate::text::{append_decimal, append_hex, char_text, spec_decimal, spec_hex};

verus! {

/// A signed integer in decimal, with a minus sign where it is negative.
pub open spec fn signed_decimal(v: int) -> Seq<char> {
    if v < 0 {
        "-"@ + spec_decimal((-v) as nat)
    } else {
        spec_decimal(v as nat)
    }
}

/// Appends a signed integer in decimal.
pub fn append_signed(s: &mut String, v: i64)
    ensures
        final(s)@ == old(s)@ + signed_decimal(v as int),
{
    if v < 0 {
        s.append("-");
        let m: u64 = (0i128 - v as i128) as u64;
        append_decimal(s, m);
    } else {
        append_decimal(s, v as u64);
    }
}

/// A character between single quotes as `Debug` writes it: `\0`, tab,
/// carriage return, line feed, the single quote and the backslash with a
/// backslash, the other ASCII control characters as `\u{..}`, every other
/// character as itself.
pub open spec fn char_debug(c: char) -> Seq<char> {
    "'"@ + (if c == '\0' {
        "\\0"@
    } else if c == '\t' {
        "\\t"@
    } else if c == '\r' {
        "\\r"@
    } else if c == '\n' {
        "\\n"@
    } else if c == '\'' {
        "\\'"@
    } else if c == '\\' {
        "\\\\"@
    } else if (c as u32) < 0x20 || (c as u32) == 0x7f {
        "\\u{"@ + spec_hex(c as nat, false) + "}"@
    } else {
        seq![c]
    }) + "'"@
}

/// Appends a character as `Debug` writes it.
pub fn append_char_debug(s: &mut String, c: char)
    ensures
        final(s)@ == old(s)@ + char_debug(c),
{
    s.append("'");
    if c == '\0' {
        s.append("\\0");
    } else if c == '\t' {
        s.append("\\t");
    } else if c == '\r' {
        s.append("\\r");
    } else if c == '\n' {
        s.append("\\n");
    } else if c == '\'' {
        s.append("\\'");
    } else if c == '\\' {
        s.append("\\\\");
    } else if (c as u32) < 0x20 || (c as u32) == 0x7f {
        s.append("\\u{");
        append_hex(s, c as u64, false);
        s.append("}");
    } else {
        let t = char_text(c);
        s.append(t.as_str());
    }
    s.append("'");
    assert(s@ =~= old(s)@ + char_debug(c));
}

impl Opcode {
    /// The instruction as `Debug` writes it: its name, then its operands in
    /// brackets. `FPUSH` and `DPUSH` hold bit patterns, which are written as
    /// decimal integers.
    pub open spec fn spec_debug_text(self) -> Seq<char> {
        match self {
            Opcode::NOP => "NOP"@,
            Opcode::INCSP(x0) => "INCSP("@ + signed_decimal(x0 as int) + ")"@,
            Opcode::POPV => "POPV"@,
            Opcode::ADD => "ADD"@,
            Opcode::SUB => "SUB"@,
            Opcode::MUL => "MUL"@,
            Opcode::DIV => "DIV"@,
            Opcode::AND => "AND"@,
            Opcode::OR => "OR"@,
            Opcode::MOD => "MOD"@,
            Opcode::SHL => "SHL"@,
            Opcode::SHR => "SHR"@,
            Opcode::XOR => "XOR"@,
            Opcode::GETV => "GETV"@,
            Opcode::PUTV => "PUTV"@,
            Opcode::INVOKEM(x0) => "INVOKEM("@ + spec_decimal(x0 as nat) + ")"@,
            Opcode::AGETV => "AGETV"@,
            Opcode::APUTV => "APUTV"@,
            Opcode::LGETV(x0) => "LGETV("@ + spec_decimal(x0 as nat) + ")"@,
            Opcode::LPUTV(x0) => "LPUTV("@ + spec_decimal(x0 as nat) + ")"@,
            Opcode::NEWA => "NEWA"@,
            Opcode::NEWC => "NEWC"@,
            Opcode::RETURN => "RETURN"@,
            Opcode::RET => "RET"@,
            Opcode::NEWS(x0) => "NEWS("@ + "DataAddress("@ + spec_decimal(x0.0 as nat) + ")"@ + ")"@,
            Opcode::GOTO(x0) => "GOTO("@ + "CodeAddress("@ + spec_decimal(x0.0 as nat) + ")"@ + ")"@,
            Opcode::EQ => "EQ"@,
            Opcode::LT => "LT"@,
            Opcode::LTE => "LTE"@,
            Opcode::GT => "GT"@,
            Opcode::GTE => "GTE"@,
            Opcode::NE => "NE"@,
            Opcode::ISNULL => "ISNULL"@,
            Opcode::ISA => "ISA"@,
            Opcode::CANHAZPLZ => "CANHAZPLZ"@,
            Opcode::JSR(x0) => "JSR("@ + "CodeAddress("@ + spec_decimal(x0.0 as nat) + ")"@ + ")"@,
            Opcode::TS => "TS"@,
            Opcode::IPUSH(x0) => "IPUSH("@ + signed_decimal(x0 as int) + ")"@,
            Opcode::FPUSH(x0) => "FPUSH("@ + spec_decimal(x0 as nat) + ")"@,
            Opcode::SPUSH(x0) => "SPUSH("@ + "SymbolAddress("@ + spec_decimal(x0.0 as nat) + ")"@ + ")"@,
            Opcode::BT(x0) => "BT("@ + "CodeAddress("@ + spec_decimal(x0.0 as nat) + ")"@ + ")"@,
            Opcode::BF(x0) => "BF("@ + "CodeAddress("@ + spec_decimal(x0.0 as nat) + ")"@ + ")"@,
            Opcode::FRPUSH => "FRPUSH"@,
            Opcode::BPUSH(x0) => "BPUSH("@ + signed_decimal(x0 as int) + ")"@,
            Opcode::NPUSH => "NPUSH"@,
            Opcode::INV => "INV"@,
            Opcode::DUP(x0) => "DUP("@ + spec_decimal(x0 as nat) + ")"@,
            Opcode::NEWD => "NEWD"@,
            Opcode::GETM => "GETM"@,
            Opcode::LPUSH(x0) => "LPUSH("@ + spec_decimal(x0 as nat) + ")"@,
            Opcode::DPUSH(x0) => "DPUSH("@ + spec_decimal(x0 as nat) + ")"@,
            Opcode::THROW => "THROW"@,
            Opcode::CPUSH(x0) => "CPUSH("@ + char_debug(x0) + ")"@,
            Opcode::ARGC(x0) => "ARGC("@ + spec_decimal(x0 as nat) + ")"@,
            Opcode::NEWBA => "NEWBA"@,
            Opcode::IPUSHZ => "IPUSHZ"@,
            Opcode::IPUSH1(x0) => "IPUSH1("@ + signed_decimal(x0 as int) + ")"@,
            Opcode::IPUSH2(x0) => "IPUSH2("@ + signed_decimal(x0 as int) + ")"@,
            Opcode::IPUSH3(x0) => "IPUSH3("@ + signed_decimal(x0 as int) + ")"@,
            Opcode::FPUSHZ => "FPUSHZ"@,
            Opcode::LPUSHZ => "LPUSHZ"@,
            Opcode::DPUSHZ => "DPUSHZ"@,
            Opcode::BTPUSH => "BTPUSH"@,
            Opcode::BFPUSH => "BFPUSH"@,
            Opcode::APUSH(x0) => "APUSH("@ + "DataAddress("@ + spec_decimal(x0.0 as nat) + ")"@ + ")"@,
            Opcode::BAPUSH(x0) => "BAPUSH("@ + "DataAddress("@ + spec_decimal(x0.0 as nat) + ")"@ + ")"@,
            Opcode::HPUSH(x0) => "HPUSH("@ + "DataAddress("@ + spec_decimal(x0.0 as nat) + ")"@ + ")"@,
            Opcode::GETSELFV(x0) => "GETSELFV("@ + "SymbolAddress("@ + spec_decimal(x0.0 as nat) + ")"@ + ")"@,
            Opcode::GETSELF => "GETSELF"@,
            Opcode::GETMV(x0, x1) => "GETMV("@ + "SymbolAddress("@ + spec_decimal(x0.0 as nat) + ")"@ + ", "@ + "SymbolAddress("@ + spec_decimal(x1.0 as nat) + ")"@ + ")"@,
            Opcode::GETLOCALV(x0, x1) => "GETLOCALV("@ + spec_decimal(x0 as nat) + ", "@ + "SymbolAddress("@ + spec_decimal(x1.0 as nat) + ")"@ + ")"@,
            Opcode::GETSV(x0) => "GETSV("@ + "SymbolAddress("@ + spec_decimal(x0.0 as nat) + ")"@ + ")"@,
            Opcode::INVOKEMZ => "INVOKEMZ"@,
            Opcode::APUTVDUP => "APUTVDUP"@,
            Opcode::ARGCINCSP(x0, x1) => "ARGCINCSP("@ + spec_decimal(x0 as nat) + ", "@ + spec_decimal(x1 as nat) + ")"@,
            Opcode::ISNOTNULL => "ISNOTNULL"@,
        }
    }

    #[verifier::rlimit(50)]
    pub fn debug_text(&self) -> (s: String)
        ensures
            s@ == self.spec_debug_text(),
    {
        let s = match self {
            Opcode::NOP => String::from_str("NOP"),
            Opcode::INCSP(x0) => {
                let mut s = String::from_str("INCSP(");
                append_signed(&mut s, *x0 as i64);
                s.append(")");
                s
            },
            Opcode::POPV => String::from_str("POPV"),
            Opcode::ADD => String::from_str("ADD"),
            Opcode::SUB => String::from_str("SUB"),
            Opcode::MUL => String::from_str("MUL"),
            Opcode::DIV => String::from_str("DIV"),
            Opcode::AND => String::from_str("AND"),
            Opcode::OR => String::from_str("OR"),
            Opcode::MOD => String::from_str("MOD"),
            Opcode::SHL => String::from_str("SHL"),
            Opcode::SHR => String::from_str("SHR"),
            Opcode::XOR => String::from_str("XOR"),
            Opcode::GETV => String::from_str("GETV"),
            Opcode::PUTV => String::from_str("PUTV"),
            Opcode::INVOKEM(x0) => {
                let mut s = String::from_str("INVOKEM(");
                append_decimal(&mut s, *x0 as u64);
                s.append(")");
                s
            },
            Opcode::AGETV => String::from_str("AGETV"),
            Opcode::APUTV => String::from_str("APUTV"),
            Opcode::LGETV(x0) => {
                let mut s = String::from_str("LGETV(");
                append_decimal(&mut s, *x0 as u64);
                s.append(")");
                s
            },
            Opcode::LPUTV(x0) => {
                let mut s = String::from_str("LPUTV(");
                append_decimal(&mut s, *x0 as u64);
                s.append(")");
                s
            },
            Opcode::NEWA => String::from_str("NEWA"),
            Opcode::NEWC => String::from_str("NEWC"),
            Opcode::RETURN => String::from_str("RETURN"),
            Opcode::RET => String::from_str("RET"),
            Opcode::NEWS(x0) => {
                let mut s = String::from_str("NEWS(");
                s.append("DataAddress(");
                append_decimal(&mut s, x0.0 as u64);
                s.append(")");
                s.append(")");
                s
            },
            Opcode::GOTO(x0) => {
                let mut s = String::from_str("GOTO(");
                s.append("CodeAddress(");
                append_decimal(&mut s, x0.0 as u64);
                s.append(")");
                s.append(")");
                s
            },
            Opcode::EQ => String::from_str("EQ"),
            Opcode::LT => String::from_str("LT"),
            Opcode::LTE => String::from_str("LTE"),
            Opcode::GT => String::from_str("GT"),
            Opcode::GTE => String::from_str("GTE"),
            Opcode::NE => String::from_str("NE"),
            Opcode::ISNULL => String::from_str("ISNULL"),
            Opcode::ISA => String::from_str("ISA"),
            Opcode::CANHAZPLZ => String::from_str("CANHAZPLZ"),
            Opcode::JSR(x0) => {
                let mut s = String::from_str("JSR(");
                s.append("CodeAddress(");
                append_decimal(&mut s, x0.0 as u64);
                s.append(")");
                s.append(")");
                s
            },
            Opcode::TS => String::from_str("TS"),
            Opcode::IPUSH(x0) => {
                let mut s = String::from_str("IPUSH(");
                append_signed(&mut s, *x0 as i64);
                s.append(")");
                s
            },
            Opcode::FPUSH(x0) => {
                let mut s = String::from_str("FPUSH(");
                append_decimal(&mut s, *x0 as u64);
                s.append(")");
                s
            },
            Opcode::SPUSH(x0) => {
                let mut s = String::from_str("SPUSH(");
                s.append("SymbolAddress(");
                append_decimal(&mut s, x0.0 as u64);
                s.append(")");
                s.append(")");
                s
            },
            Opcode::BT(x0) => {
                let mut s = String::from_str("BT(");
                s.append("CodeAddress(");
                append_decimal(&mut s, x0.0 as u64);
                s.append(")");
                s.append(")");
                s
            },
            Opcode::BF(x0) => {
                let mut s = String::from_str("BF(");
                s.append("CodeAddress(");
                append_decimal(&mut s, x0.0 as u64);
                s.append(")");
                s.append(")");
                s
            },
            Opcode::FRPUSH => String::from_str("FRPUSH"),
            Opcode::BPUSH(x0) => {
                let mut s = String::from_str("BPUSH(");
                append_signed(&mut s, *x0 as i64);
                s.append(")");
                s
            },
            Opcode::NPUSH => String::from_str("NPUSH"),
            Opcode::INV => String::from_str("INV"),
            Opcode::DUP(x0) => {
                let mut s = String::from_str("DUP(");
                append_decimal(&mut s, *x0 as u64);
                s.append(")");
                s
            },
            Opcode::NEWD => String::from_str("NEWD"),
            Opcode::GETM => String::from_str("GETM"),
            Opcode::LPUSH(x0) => {
                let mut s = String::from_str("LPUSH(");
                append_decimal(&mut s, *x0 as u64);
                s.append(")");
                s
            },
            Opcode::DPUSH(x0) => {
                let mut s = String::from_str("DPUSH(");
                append_decimal(&mut s, *x0 as u64);
                s.append(")");
                s
            },
            Opcode::THROW => String::from_str("THROW"),
            Opcode::CPUSH(x0) => {
                let mut s = String::from_str("CPUSH(");
                append_char_debug(&mut s, *x0);
                s.append(")");
                s
            },
            Opcode::ARGC(x0) => {
                let mut s = String::from_str("ARGC(");
                append_decimal(&mut s, *x0 as u64);
                s.append(")");
                s
            },
            Opcode::NEWBA => String::from_str("NEWBA"),
            Opcode::IPUSHZ => String::from_str("IPUSHZ"),
            Opcode::IPUSH1(x0) => {
                let mut s = String::from_str("IPUSH1(");
                append_signed(&mut s, *x0 as i64);
                s.append(")");
                s
            },
            Opcode::IPUSH2(x0) => {
                let mut s = String::from_str("IPUSH2(");
                append_signed(&mut s, *x0 as i64);
                s.append(")");
                s
            },
            Opcode::IPUSH3(x0) => {
                let mut s = String::from_str("IPUSH3(");
                append_signed(&mut s, *x0 as i64);
                s.append(")");
                s
            },
            Opcode::FPUSHZ => String::from_str("FPUSHZ"),
            Opcode::LPUSHZ => String::from_str("LPUSHZ"),
            Opcode::DPUSHZ => String::from_str("DPUSHZ"),
            Opcode::BTPUSH => String::from_str("BTPUSH"),
            Opcode::BFPUSH => String::from_str("BFPUSH"),
            Opcode::APUSH(x0) => {
                let mut s = String::from_str("APUSH(");
                s.append("DataAddress(");
                append_decimal(&mut s, x0.0 as u64);
                s.append(")");
                s.append(")");
                s
            },
            Opcode::BAPUSH(x0) => {
                let mut s = String::from_str("BAPUSH(");
                s.append("DataAddress(");
                append_decimal(&mut s, x0.0 as u64);
                s.append(")");
                s.append(")");
                s
            },
            Opcode::HPUSH(x0) => {
                let mut s = String::from_str("HPUSH(");
                s.append("DataAddress(");
                append_decimal(&mut s, x0.0 as u64);
                s.append(")");
                s.append(")");
                s
            },
            Opcode::GETSELFV(x0) => {
                let mut s = String::from_str("GETSELFV(");
                s.append("SymbolAddress(");
                append_decimal(&mut s, x0.0 as u64);
                s.append(")");
                s.append(")");
                s
            },
            Opcode::GETSELF => String::from_str("GETSELF"),
            Opcode::GETMV(x0, x1) => {
                let mut s = String::from_str("GETMV(");
                s.append("SymbolAddress(");
                append_decimal(&mut s, x0.0 as u64);
                s.append(")");
                s.append(", ");
                s.append("SymbolAddress(");
                append_decimal(&mut s, x1.0 as u64);
                s.append(")");
                s.append(")");
                s
            },
            Opcode::GETLOCALV(x0, x1) => {
                let mut s = String::from_str("GETLOCALV(");
                append_decimal(&mut s, *x0 as u64);
                s.append(", ");
                s.append("SymbolAddress(");
                append_decimal(&mut s, x1.0 as u64);
                s.append(")");
                s.append(")");
                s
            },
            Opcode::GETSV(x0) => {
                let mut s = String::from_str("GETSV(");
                s.append("SymbolAddress(");
                append_decimal(&mut s, x0.0 as u64);
                s.append(")");
                s.append(")");
                s
            },
            Opcode::INVOKEMZ => String::from_str("INVOKEMZ"),
            Opcode::APUTVDUP => String::from_str("APUTVDUP"),
            Opcode::ARGCINCSP(x0, x1) => {
                let mut s = String::from_str("ARGCINCSP(");
                append_decimal(&mut s, *x0 as u64);
                s.append(", ");
                append_decimal(&mut s, *x1 as u64);
                s.append(")");
                s
            },
            Opcode::ISNOTNULL => String::from_str("ISNOTNULL"),
        };
        assert(s@ =~= self.spec_debug_text());
        s
    }
}

impl ImmediateValue {
    /// The constant as `Debug` writes it. `Float` and `Double` hold bit
    /// patterns, which are written as decimal integers.
    pub open spec fn spec_debug_text(self) -> Seq<char> {
        match self {
            ImmediateValue::Null => "Null"@,
            ImmediateValue::Integer(v) => "Integer("@ + signed_decimal(v as int) + ")"@,
            ImmediateValue::Long(v) => "Long("@ + spec_decimal(v as nat) + ")"@,
            ImmediateValue::Float(v) => "Float("@ + spec_decimal(v as nat) + ")"@,
            ImmediateValue::Double(v) => "Double("@ + spec_decimal(v as nat) + ")"@,
            ImmediateValue::Char(c) => "Char("@ + char_debug(c) + ")"@,
            ImmediateValue::String(d) => "String(DataAddress("@ + spec_decimal(d.0 as nat) + "))"@,
            ImmediateValue::Symbol(y) => "Symbol(SymbolAddress("@ + spec_decimal(y.0 as nat) + "))"@,
            ImmediateValue::Boolean(b) => if b { "Boolean(true)"@ } else { "Boolean(false)"@ },
        }
    }

    pub fn debug_text(&self) -> (s: String)
        ensures
            s@ == self.spec_debug_text(),
    {
        let s = match *self {
            ImmediateValue::Null => String::from_str("Null"),
            ImmediateValue::Integer(v) => {
                let mut s = String::from_str("Integer(");
                append_signed(&mut s, v as i64);
                s.append(")");
                s
            },
            ImmediateValue::Long(v) => {
                let mut s = String::from_str("Long(");
                append_decimal(&mut s, v);
                s.append(")");
                s
            },
            ImmediateValue::Float(v) => {
                let mut s = String::from_str("Float(");
                append_decimal(&mut s, v as u64);
                s.append(")");
                s
            },
            ImmediateValue::Double(v) => {
                let mut s = String::from_str("Double(");
                append_decimal(&mut s, v);
                s.append(")");
                s
            },
            ImmediateValue::Char(c) => {
                let mut s = String::from_str("Char(");
                append_char_debug(&mut s, c);
                s.append(")");
                s
            },
            ImmediateValue::String(d) => {
                let mut s = String::from_str("String(DataAddress(");
                append_decimal(&mut s, d.0 as u64);
                s.append("))");
                s
            },
            ImmediateValue::Symbol(y) => {
                let mut s = String::from_str("Symbol(SymbolAddress(");
                append_decimal(&mut s, y.0 as u64);
                s.append("))");
                s
            },
            ImmediateValue::Boolean(b) => if b {
                String::from_str("Boolean(true)")
            } else {
                String::from_str("Boolean(false)")
            },
        };
        assert(s@ =~= self.spec_debug_text());
        s
    }
}

impl DisassemblyError {
    /// The error's name, as `Debug` writes it.
    pub open spec fn spec_debug_text(self) -> Seq<char> {
        match self {
            DisassemblyError::CannotDissasembleJSR => "CannotDissasembleJSR"@,
            DisassemblyError::MalformedControlFlow => "MalformedControlFlow"@,
        }
    }

    pub fn debug_text(&self) -> (s: String)
        ensures
            s@ == self.spec_debug_text(),
    {
        match self {
            DisassemblyError::CannotDissasembleJSR => String::from_str("CannotDissasembleJSR"),
            DisassemblyError::MalformedControlFlow => String::from_str("MalformedControlFlow"),
        }
    }
}

impl SSAError {
    /// The error's name, with the instruction for `UnsupportedOpcode`, as
    /// `Debug` writes it.
    pub open spec fn spec_debug_text(self) -> Seq<char> {
        match self {
            SSAError::UnbalancedStack => "UnbalancedStack"@,
            SSAError::StackUnderflow => "StackUnderflow"@,
            SSAError::InternalNotSet => "InternalNotSet"@,
            SSAError::UnsupportedOpcode(op) => "UnsupportedOpcode("@ + op.spec_debug_text() + ")"@,
            SSAError::CounterOverflow => "CounterOverflow"@,
            SSAError::BlockOutOfRange => "BlockOutOfRange"@,
        }
    }

    pub fn debug_text(&self) -> (s: String)
        ensures
            s@ == self.spec_debug_text(),
    {
        match self {
            SSAError::UnbalancedStack => String::from_str("UnbalancedStack"),
            SSAError::StackUnderflow => String::from_str("StackUnderflow"),
            SSAError::InternalNotSet => String::from_str("InternalNotSet"),
            SSAError::UnsupportedOpcode(op) => {
                let mut s = String::from_str("UnsupportedOpcode(");
                let t = op.debug_text();
                s.append(t.as_str());
                s.append(")");
                s
            },
            SSAError::CounterOverflow => String::from_str("CounterOverflow"),
            SSAError::BlockOutOfRange => String::from_str("BlockOutOfRange"),
        }
    }
}

} // verus!
