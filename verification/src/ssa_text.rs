//! The text of the SSA form, as the listing shows it.
use vstd::prelude::*;

use crate::ssa::{BinaryOperator, ImmediateValue, OPView, SSATerminator, UnaryOperator, Variable, OP};
use crate::text::{prefixed_decimal, spec_decimal};
use crate::traits::{AddressResolver, DisplayWithResolver, ResolvedNames};

verus! {

impl Variable {
    /// `L`, `S` or `I`, then the slot (not for the internal register) and
    /// the number of the assignment.
    pub open spec fn spec_text(self) -> Seq<char> {
        match self {
            Variable::Local { addr, unique } => "L"@ + spec_decimal(addr as nat) + "_"@ + spec_decimal(unique as nat),
            Variable::Stack { addr, unique } => "S"@ + spec_decimal(addr as nat) + "_"@ + spec_decimal(unique as nat),
            Variable::Internal { unique } => "I_"@ + spec_decimal(unique as nat),
        }
    }

    pub fn text(&self) -> (s: String)
        ensures
            s@ == self.spec_text(),
    {
        match *self {
            Variable::Local { addr, unique } => {
                let mut s = prefixed_decimal("L", addr as usize);
                let u = prefixed_decimal("_", unique as usize);
                s.append(u.as_str());
                s
            },
            Variable::Stack { addr, unique } => {
                let mut s = prefixed_decimal("S", addr as usize);
                let u = prefixed_decimal("_", unique as usize);
                s.append(u.as_str());
                s
            },
            Variable::Internal { unique } => prefixed_decimal("I_", unique as usize),
        }
    }
}

impl UnaryOperator {
    pub open spec fn spec_text(self) -> Seq<char> {
        match self {
            UnaryOperator::IsNull => "isnull"@,
            UnaryOperator::IsNotNull => "isnotnull"@,
            UnaryOperator::Inv => "~"@,
            UnaryOperator::NewDictionary => "newdict"@,
            UnaryOperator::NewArray => "newarray"@,
            UnaryOperator::NewByteArray => "newarray"@,
            UnaryOperator::NewClass => "newclass"@,
        }
    }

    pub fn text(&self) -> (s: &'static str)
        ensures
            s@ == self.spec_text(),
    {
        match self {
            UnaryOperator::IsNull => "isnull",
            UnaryOperator::IsNotNull => "isnotnull",
            UnaryOperator::Inv => "~",
            UnaryOperator::NewDictionary => "newdict",
            UnaryOperator::NewArray => "newarray",
            UnaryOperator::NewByteArray => "newarray",
            UnaryOperator::NewClass => "newclass",
        }
    }
}

impl BinaryOperator {
    pub open spec fn spec_text(self) -> Seq<char> {
        match self {
            BinaryOperator::Add => "+"@,
            BinaryOperator::Sub => "-"@,
            BinaryOperator::Mul => "*"@,
            BinaryOperator::Div => "/"@,
            BinaryOperator::And => "&&"@,
            BinaryOperator::Or => "||"@,
            BinaryOperator::Mod => "%"@,
            BinaryOperator::Shl => "<<"@,
            BinaryOperator::Shr => ">>"@,
            BinaryOperator::Xor => "^"@,
            BinaryOperator::Eq => "=="@,
            BinaryOperator::Lt => "<"@,
            BinaryOperator::Lte => "<="@,
            BinaryOperator::Gt => ">"@,
            BinaryOperator::Gte => ">="@,
            BinaryOperator::Ne => "!="@,
            BinaryOperator::Isa => "isa"@,
            BinaryOperator::Has => "has"@,
        }
    }

    pub fn text(&self) -> (s: &'static str)
        ensures
            s@ == self.spec_text(),
    {
        match self {
            BinaryOperator::Add => "+",
            BinaryOperator::Sub => "-",
            BinaryOperator::Mul => "*",
            BinaryOperator::Div => "/",
            BinaryOperator::And => "&&",
            BinaryOperator::Or => "||",
            BinaryOperator::Mod => "%",
            BinaryOperator::Shl => "<<",
            BinaryOperator::Shr => ">>",
            BinaryOperator::Xor => "^",
            BinaryOperator::Eq => "==",
            BinaryOperator::Lt => "<",
            BinaryOperator::Lte => "<=",
            BinaryOperator::Gt => ">",
            BinaryOperator::Gte => ">=",
            BinaryOperator::Ne => "!=",
            BinaryOperator::Isa => "isa",
            BinaryOperator::Has => "has",
        }
    }
}

/// The arguments of a call, each followed by a comma and a space.
pub open spec fn arguments_text(args: Seq<Variable>) -> Seq<char>
    decreases args.len(),
{
    if args.len() == 0 {
        seq![]
    } else {
        arguments_text(args.drop_last()) + args.last().spec_text() + ", "@
    }
}

/// The text of an operation: an assignment to its destination, or a store.
pub open spec fn op_text(o: OPView) -> Seq<char> {
    match o {
        OPView::Move { src, dest } => dest.spec_text() + " = "@ + src.spec_text(),
        OPView::MoveImm { src, dest } => dest.spec_text() + " = "@ + src.spec_debug_text(),
        OPView::BinaryOperation { op, src1, src2, dest } =>
            dest.spec_text() + " = "@ + src1.spec_text() + " "@ + op.spec_text() + " "@ + src2.spec_text(),
        OPView::UnaryOperation { op, src, dest } => dest.spec_text() + " = "@ + op.spec_text() + " "@ + src.spec_text(),
        OPView::Getv { base, symbol, dest } => dest.spec_text() + " = "@ + base.spec_text() + "."@ + symbol.spec_text(),
        OPView::Putv { src, base, symbol } => base.spec_text() + "."@ + symbol.spec_text() + " = "@ + src.spec_text(),
        OPView::Getm { symbol, dest } => dest.spec_text() + " = getm("@ + symbol.spec_text() + ")"@,
        OPView::Call { function, arguments, dest } =>
            dest.spec_text() + " = "@ + function.spec_text() + "("@ + arguments_text(arguments) + ")"@,
        OPView::Aputv { src, idx, value } => src.spec_text() + "["@ + idx.spec_text() + "] =  "@ + value.spec_text(),
        OPView::Agetv { src, idx, dest } => dest.spec_text() + " = "@ + src.spec_text() + "["@ + idx.spec_text() + "]"@,
    }
}

/// Appends the text of `a`, then `sep`, then the text of `b`.
fn join_vars(out: &mut String, a: &Variable, sep: &str, b: &Variable)
    ensures
        final(out)@ == old(out)@ + a.spec_text() + sep@ + b.spec_text(),
{
    let t = a.text();
    out.append(t.as_str());
    out.append(sep);
    let u = b.text();
    out.append(u.as_str());
}

impl OP {
    pub fn text(&self) -> (s: String)
        ensures
            s@ == op_text(self@),
    {
        let mut s = String::new();
        match self {
            OP::Move { src, dest } => join_vars(&mut s, dest, " = ", src),
            OP::MoveImm { src, dest } => {
                let t = dest.text();
                s.append(t.as_str());
                s.append(" = ");
                let u = src.debug_text();
                s.append(u.as_str());
            },
            OP::BinaryOperation { op, src1, src2, dest } => {
                join_vars(&mut s, dest, " = ", src1);
                s.append(" ");
                s.append(op.text());
                s.append(" ");
                let t = src2.text();
                s.append(t.as_str());
            },
            OP::UnaryOperation { op, src, dest } => {
                let t = dest.text();
                s.append(t.as_str());
                s.append(" = ");
                s.append(op.text());
                s.append(" ");
                let u = src.text();
                s.append(u.as_str());
            },
            OP::Getv { base, symbol, dest } => {
                let t = dest.text();
                s.append(t.as_str());
                s.append(" = ");
                join_vars(&mut s, base, ".", symbol);
            },
            OP::Putv { src, base, symbol } => {
                join_vars(&mut s, base, ".", symbol);
                s.append(" = ");
                let t = src.text();
                s.append(t.as_str());
            },
            OP::Getm { symbol, dest } => {
                join_vars(&mut s, dest, " = getm(", symbol);
                s.append(")");
            },
            OP::Call { function, arguments, dest } => {
                join_vars(&mut s, dest, " = ", function);
                s.append("(");
                let ghost before = s@;
                let mut i: usize = 0;
                while i < arguments.len()
                    invariant
                        i <= arguments@.len(),
                        s@ == before + arguments_text(arguments@.subrange(0, i as int)),
                    decreases arguments@.len() - i,
                {
                    let t = arguments[i].text();
                    s.append(t.as_str());
                    s.append(", ");
                    proof {
                        let sub = arguments@.subrange(0, i + 1);
                        assert(sub.drop_last() =~= arguments@.subrange(0, i as int));
                        assert(s@ =~= before + arguments_text(sub));
                    }
                    i = i + 1;
                }
                assert(arguments@.subrange(0, i as int) =~= arguments@);
                s.append(")");
            },
            OP::Aputv { src, idx, value } => {
                join_vars(&mut s, src, "[", idx);
                s.append("] =  ");
                let t = value.text();
                s.append(t.as_str());
            },
            OP::Agetv { src, idx, dest } => {
                let t = dest.text();
                s.append(t.as_str());
                s.append(" = ");
                join_vars(&mut s, src, "[", idx);
                s.append("]");
            },
        }
        assert(s@ =~= op_text(self@));
        s
    }
}

impl DisplayWithResolver for OP {
    /// An operation names no address: its text is the same whatever the
    /// resolver.
    open spec fn spec_text(&self, names: ResolvedNames) -> Seq<char> {
        op_text(self@)
    }

    fn text_with_resolver<R: AddressResolver>(&self, resolver: &R) -> (s: String) {
        self.text()
    }
}

impl SSATerminator {
    pub open spec fn spec_text(self) -> Seq<char> {
        match self {
            SSATerminator::Jump { target } => "JUMP "@ + spec_decimal(target as nat),
            SSATerminator::BranchTrue { test, target_true, target_false } =>
                "JUMP "@ + test.spec_text() + " ? "@ + spec_decimal(target_true as nat) + " : "@ + spec_decimal(target_false as nat),
            SSATerminator::Return { var } => "RETURN "@ + var.spec_text(),
        }
    }

    pub fn text(&self) -> (s: String)
        ensures
            s@ == self.spec_text(),
    {
        match *self {
            SSATerminator::Jump { target } => prefixed_decimal("JUMP ", target),
            SSATerminator::BranchTrue { test, target_true, target_false } => {
                let mut s = String::from_str("JUMP ");
                let t = test.text();
                s.append(t.as_str());
                let a = prefixed_decimal(" ? ", target_true);
                s.append(a.as_str());
                let b = prefixed_decimal(" : ", target_false);
                s.append(b.as_str());
                s
            },
            SSATerminator::Return { var } => {
                let mut s = String::from_str("RETURN ");
                let t = var.text();
                s.append(t.as_str());
                s
            },
        }
    }
}

} // verus!
