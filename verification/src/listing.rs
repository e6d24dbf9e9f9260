//! The text of a function as the viewer lists it: the arrows of its jumps,
//! then each block's name and its instructions, one per line.
use vstd::prelude::*;
use std::marker::PhantomData;

use crate::arrows::{
    block_line, block_line_of, chars_needed, layout_arrows, lemma_block_line_mono, lines_fit,
    spec_layout, spec_render, Arrows, ArrowsView,
};
use crate::text::{
    decimal_left_aligned, decimal_right_aligned, pad_left, pad_right, spec_decimal, string_from_chars,
};
use crate::traits::{
    AddressResolver, DisplayWithResolver, GenericTerminator, ResolvedNames, TBlock, TFunction, TInstruction,
};

verus! {

/// The number of instructions of each block.
pub open spec fn block_lens<I, B: TBlock<I>>(bs: Seq<B>) -> Seq<usize> {
    bs.map_values(|b: B| b.spec_instructions().len() as usize)
}

/// The terminator of each block.
pub open spec fn block_terms<I, B: TBlock<I>>(bs: Seq<B>) -> Seq<GenericTerminator> {
    bs.map_values(|b: B| b.spec_terminator())
}

/// The arrows of the blocks, where they can be laid out.
pub open spec fn blocks_layout<I, B: TBlock<I>>(bs: Seq<B>) -> Option<ArrowsView> {
    spec_layout(block_lens(bs), block_terms(bs), 0, ArrowsView { arrows: seq![], max_depth: 0 })
}

/// Whether the blocks can be listed: their lines fit in a `usize`, their
/// arrows can be laid out and drawn, and every instruction of a block with
/// addresses has one.
pub open spec fn listable<I, B: TBlock<I>>(bs: Seq<B>) -> bool {
    &&& lines_fit(block_lens(bs))
    &&& blocks_layout(bs) matches Some(v) && (v.arrows.len() == 0 || v.max_depth < 255)
    &&& forall|k: int| 0 <= k < bs.len() ==> addresses_present(#[trigger] bs[k])
}

/// The width of a block's address column: the digits of its last address,
/// where it has addresses.
pub open spec fn address_column<I, B: TBlock<I>>(b: B) -> Option<usize> {
    match b.spec_bounds() {
        Some((_, end)) => Some(spec_decimal(end as nat).len() as usize),
        None => None,
    }
}

/// The listing's line for an instruction: the arrows, the address right
/// aligned in its column where the block has addresses, the line number
/// left aligned in three, and the instruction's text.
pub open spec fn instruction_text<I: DisplayWithResolver>(
    arrows: ArrowsView,
    line: int,
    column: Option<usize>,
    entry: (Option<usize>, I),
    names: ResolvedNames,
) -> Seq<char> {
    spec_render(arrows, line as usize, false) + match column {
        Some(w) => " "@ + pad_left(spec_decimal(entry.0->0 as nat), w as int) + " "@,
        None => seq![],
    } + " "@ + pad_right(spec_decimal(line as nat), 3) + " "@ + entry.1.spec_text(names) + "\n"@
}

/// The lines of instructions listed from line `first` on.
pub open spec fn instructions_text<I: DisplayWithResolver>(
    arrows: ArrowsView,
    first: int,
    column: Option<usize>,
    entries: Seq<(Option<usize>, I)>,
    names: ResolvedNames,
) -> Seq<char>
    decreases entries.len(),
{
    if entries.len() == 0 {
        seq![]
    } else {
        instructions_text(arrows, first, column, entries.drop_last(), names)
            + instruction_text(arrows, first + entries.len() - 1, column, entries.last(), names)
    }
}

/// A block listed at line `first`: a line with its name, then its
/// instructions.
pub open spec fn block_text<I: TInstruction, B: TBlock<I>>(arrows: ArrowsView, first: int, b: B, names: ResolvedNames) -> Seq<char> {
    spec_render(arrows, first as usize, true) + b.spec_name() + "\n"@
        + instructions_text(arrows, first, address_column(b), b.spec_instructions(), names)
}

/// The first `n` blocks listed one after the other.
pub open spec fn blocks_text<I: TInstruction, B: TBlock<I>>(arrows: ArrowsView, bs: Seq<B>, n: int, names: ResolvedNames) -> Seq<char>
    decreases n,
{
    if n <= 0 {
        seq![]
    } else {
        blocks_text(arrows, bs, n - 1, names) + block_text(arrows, block_line(block_lens(bs), n - 1), bs[n - 1], names)
    }
}

/// The listing of blocks, where they can be listed.
pub open spec fn listing_text<I: TInstruction, B: TBlock<I>>(bs: Seq<B>, names: ResolvedNames) -> Seq<char> {
    blocks_text(blocks_layout(bs)->0, bs, bs.len() as int, names)
}

/// Whether every instruction of a block with addresses has one.
pub open spec fn addresses_present<I, B: TBlock<I>>(b: B) -> bool {
    b.spec_bounds() is Some ==> forall|j: int| 0 <= j < b.spec_instructions().len()
        ==> (#[trigger] b.spec_instructions()[j]).0 is Some
}

/// The listing's line for one instruction.
fn instruction_line<I: DisplayWithResolver, R: AddressResolver>(
    arrows: &Arrows,
    line: usize,
    column: Option<usize>,
    addr: Option<usize>,
    ins: &I,
    resolver: &R,
) -> (s: String)
    requires
        arrows@.arrows.len() == 0 || arrows@.max_depth < 255,
        column is Some ==> addr is Some,
    ensures
        s@ == instruction_text(arrows@, line as int, column, (addr, *ins), resolver.names()),
{
    let mut s = string_from_chars(&arrows.render_at_addr(line, false));
    match column {
        Some(w) => {
            let a = match addr {
                Some(a) => a,
                None => 0,
            };
            s.append(" ");
            let t = decimal_right_aligned(a, w);
            s.append(t.as_str());
            s.append(" ");
        },
        None => {},
    }
    s.append(" ");
    let n = decimal_left_aligned(line, 3);
    s.append(n.as_str());
    s.append(" ");
    let t = ins.text_with_resolver(resolver);
    s.append(t.as_str());
    s.append("\n");
    assert(s@ =~= instruction_text(arrows@, line as int, column, (addr, *ins), resolver.names()));
    s
}

/// Appends the listing of block `b` at line `line`; says whether it could:
/// not where an instruction of a block with addresses has none.
fn append_block<I: TInstruction, B: TBlock<I>, R: AddressResolver>(out: &mut String, arrows: &Arrows, line: usize, b: &B, resolver: &R) -> (ok: bool)
    requires
        arrows@.arrows.len() == 0 || arrows@.max_depth < 255,
        line + b.spec_instructions().len() <= usize::MAX,
    ensures
        ok == addresses_present(*b),
        ok ==> final(out)@ == old(out)@ + block_text(arrows@, line as int, *b, resolver.names()),
{
    let ghost av = arrows@;
    let ghost names = resolver.names();
    let head = string_from_chars(&arrows.render_at_addr(line, true));
    out.append(head.as_str());
    out.append(b.get_block_name().as_str());
    out.append("\n");
    let column: Option<usize> = match b.get_block_address_bounds() {
        Some((_, e)) => Some(chars_needed(e)),
        None => None,
    };
    assert(column == address_column(*b));
    let entries = b.get_instructions_for_block();
    let ghost ins_spec = b.spec_instructions();
    let ghost before = out@;
    let mut j: usize = 0;
    while j < entries.len()
        invariant
            entries@.len() == ins_spec.len(),
            ins_spec == b.spec_instructions(),
            forall|i: int| 0 <= i < entries@.len() ==> (#[trigger] entries@[i]).0 == ins_spec[i].0 && *entries@[i].1 == ins_spec[i].1,
            j <= entries@.len(),
            line + ins_spec.len() <= usize::MAX,
            arrows@ == av,
            av.arrows.len() == 0 || av.max_depth < 255,
            names == resolver.names(),
            column == address_column(*b),
            out@ == before + instructions_text(av, line as int, column, ins_spec.subrange(0, j as int), names),
            forall|j2: int| 0 <= j2 < j && column is Some ==> (#[trigger] ins_spec[j2]).0 is Some,
        decreases entries@.len() - j,
    {
        let (addr, ins) = entries[j];
        if column.is_some() && addr.is_none() {
            assert(b.spec_instructions()[j as int].0 is None);
            return false;
        }
        let piece = instruction_line(arrows, line + j, column, addr, ins, resolver);
        out.append(piece.as_str());
        proof {
            let sub = ins_spec.subrange(0, j + 1);
            assert(sub.drop_last() =~= ins_spec.subrange(0, j as int));
            assert(sub.last() == ins_spec[j as int]);
            assert(out@ =~= before + instructions_text(av, line as int, column, sub, names));
        }
        j = j + 1;
    }
    assert(ins_spec.subrange(0, j as int) =~= ins_spec);
    true
}

/// A function together with the resolver to list it with.
pub struct FunctionDisplay<'a, F, B, I, R> {
    function: &'a F,
    resolver: &'a R,
    phantom: PhantomData<(B, I)>,
}

impl<'a, F, B, I, R> FunctionDisplay<'a, F, B, I, R> {
    pub closed spec fn spec_function(&self) -> &'a F {
        self.function
    }

    pub closed spec fn spec_resolver(&self) -> &'a R {
        self.resolver
    }
}

/// Pairs a function with the resolver to list it with.
pub fn render_function<'a, F: TFunction<B>, B: TBlock<I>, I: TInstruction, R: AddressResolver>(
    function: &'a F,
    resolver: &'a R,
) -> (d: FunctionDisplay<'a, F, B, I, R>)
    ensures
        d.spec_function() == function,
        d.spec_resolver() == resolver,
{
    FunctionDisplay { function, resolver, phantom: PhantomData }
}

impl<'a, F: TFunction<B>, B: TBlock<I>, I: TInstruction, R: AddressResolver> FunctionDisplay<'a, F, B, I, R> {
    /// The function's listing; `None` where it cannot be listed.
    pub fn to_string(&self) -> (r: Option<String>)
        ensures
            match r {
                Some(s) => listable(self.spec_function().spec_blocks())
                    && s@ == listing_text(self.spec_function().spec_blocks(), self.spec_resolver().names()),
                None => !listable(self.spec_function().spec_blocks()),
            },
    {
        let ghost bs = self.function.spec_blocks();
        let ghost names = self.resolver.names();
        let blocks = self.function.get_blocks_for_function();
        let mut lens: Vec<usize> = Vec::new();
        let mut terms: Vec<GenericTerminator> = Vec::new();
        let mut k: usize = 0;
        while k < blocks.len()
            invariant
                blocks@.len() == bs.len(),
                forall|i: int| 0 <= i < blocks@.len() ==> *blocks@[i] == bs[i],
                k <= blocks@.len(),
                lens@ == block_lens(bs).subrange(0, k as int),
                terms@ == block_terms(bs).subrange(0, k as int),
            decreases blocks@.len() - k,
        {
            let n = blocks[k].len();
            lens.push(n);
            let t = blocks[k].get_block_terminator();
            terms.push(t);
            assert(lens@ =~= block_lens(bs).subrange(0, k + 1));
            assert(terms@ =~= block_terms(bs).subrange(0, k + 1));
            k = k + 1;
        }
        assert(lens@ =~= block_lens(bs));
        assert(terms@ =~= block_terms(bs));
        if block_line_of(&lens, lens.len()).is_none() {
            return None;
        }
        let arrows = match layout_arrows(&lens, &terms) {
            Some(a) => a,
            None => return None,
        };
        match arrows.max_depth() {
            Some(d) => {
                if d >= 255 {
                    return None;
                }
            },
            None => {},
        }
        let ghost av = arrows@;
        let mut out = String::new();
        let mut line: usize = 0;
        let mut k: usize = 0;
        while k < blocks.len()
            invariant
                blocks@.len() == bs.len(),
                forall|i: int| 0 <= i < blocks@.len() ==> *blocks@[i] == bs[i],
                k <= blocks@.len(),
                lens@ == block_lens(bs),
                lines_fit(lens@),
                blocks_layout(bs) == Some(av),
                arrows@ == av,
                av.arrows.len() == 0 || av.max_depth < 255,
                line == block_line(lens@, k as int),
                out@ == blocks_text(av, bs, k as int, names),
                names == self.resolver.names(),
                bs == self.function.spec_blocks(),
                forall|k2: int| 0 <= k2 < k ==> addresses_present(#[trigger] bs[k2]),
            decreases blocks@.len() - k,
        {
            let b: &B = blocks[k];
            proof {
                lemma_block_line_mono(lens@, k + 1, lens@.len() as int);
                assert(block_line(lens@, k + 1) == block_line(lens@, k as int) + lens@[k as int]);
            }
            let n = b.len();
            assert(lens@[k as int] == n);
            if !append_block(&mut out, &arrows, line, b, self.resolver) {
                return None;
            }
            assert(out@ =~= blocks_text(av, bs, k + 1, names));
            line = line + lens[k];
            k = k + 1;
        }
        Some(out)
    }
}

} // verus!
