//! Breaks the code of a function into basic blocks.
use vstd::prelude::*;
use std::collections::BTreeSet;

use crate::addressed_container::{
    container_wf, lemma_dense_index_unique, lemma_sorted_listing_exists, sorted_set,
    spec_dense_index, spec_sparse_address, AddressedContainer, ContainerView,
    SparseMap, strictly_increasing,
};
use crate::constants::LocalAddress;
use crate::opcodes::Opcode;
use crate::text::{prefixed_decimal, spec_decimal};
use crate::ordered_set::{set_insert, sorted_members};
use crate::traits::{GenericTerminator, TBlock, TFunction};

verus! {

/// Why a function could not be disassembled.
#[derive(Debug, PartialEq, Eq, Clone, Copy, Structural)]
pub enum DisassemblyError {
    /// The function holds a `JSR`, which is not supported.
    CannotDissasembleJSR,
    /// The control flow cannot be cut into blocks: the function is empty, a
    /// branch is its last instruction or points past its end, a leader is
    /// not the address of an instruction, or its last block falls through.
    MalformedControlFlow,
}

/// How control leaves a basic block; targets are block indices.
#[derive(Debug, Clone, Copy, PartialEq, Eq, Structural)]
pub enum DisassemblyTerminator {
    Jump { target: usize },
    BranchTrue { target_true: usize, target_false: usize },
    Return,
}

/// A maximal run of instructions entered only at its first one.
pub struct BasicBlock {
    pub name: String,
    pub container: AddressedContainer<Opcode>,
    pub terminator: DisassemblyTerminator,
}

/// The abstract value of a basic block.
pub struct BlockView {
    pub name: Seq<char>,
    pub container: ContainerView<Opcode>,
    pub terminator: DisassemblyTerminator,
}

impl View for BasicBlock {
    type V = BlockView;

    open spec fn view(&self) -> BlockView {
        BlockView { name: self.name@, container: self.container@, terminator: self.terminator }
    }
}

/// A function cut into basic blocks, in address order.
pub struct DisassemblyFunction {
    pub blocks: Vec<BasicBlock>,
}

impl View for DisassemblyFunction {
    type V = Seq<BlockView>;

    open spec fn view(&self) -> Seq<BlockView> {
        self.blocks@.map_values(|b: BasicBlock| b@)
    }
}

/// The address of the last instruction, as the 32 bits that branch targets
/// are compared with.
pub open spec fn end_u32(c: ContainerView<Opcode>) -> u32 {
    c.addrs.last() as u32
}

/// The leaders found from position `i` on, added to `acc`: the target of a
/// branch and the instruction after it, and the instruction after a return
/// unless it is the last one.
pub open spec fn scan_leaders(c: ContainerView<Opcode>, i: int, acc: Set<usize>) -> Result<Set<usize>, DisassemblyError>
    decreases c.items.len() - i,
{
    if i < 0 || i >= c.items.len() {
        Ok(acc)
    } else {
        match c.items[i] {
            Opcode::GOTO(t) | Opcode::BT(t) | Opcode::BF(t) => {
                if t.0 > end_u32(c) || i + 1 >= c.items.len() {
                    Err(DisassemblyError::MalformedControlFlow)
                } else {
                    scan_leaders(c, i + 1, acc.insert(t.0 as usize).insert(c.addrs[i + 1]))
                }
            },
            Opcode::RETURN => {
                if i + 1 < c.items.len() && c.addrs[i + 1] < c.addrs.last() {
                    scan_leaders(c, i + 1, acc.insert(c.addrs[i + 1]))
                } else {
                    scan_leaders(c, i + 1, acc)
                }
            },
            Opcode::JSR(_) => Err(DisassemblyError::CannotDissasembleJSR),
            _ => scan_leaders(c, i + 1, acc),
        }
    }
}

/// The set of leaders of a function: its first instruction and what the
/// scan finds.
pub open spec fn spec_leaders(c: ContainerView<Opcode>) -> Result<Set<usize>, DisassemblyError> {
    if c.items.len() == 0 {
        Err(DisassemblyError::MalformedControlFlow)
    } else {
        scan_leaders(c, 0, set![c.addrs[0]])
    }
}

/// Whether instruction `j` lets the scan for leaders go on: no `JSR`, and
/// a branch has a successor and a target within the function.
pub open spec fn scan_ok_at(c: ContainerView<Opcode>, j: int) -> bool {
    match c.items[j] {
        Opcode::GOTO(t) | Opcode::BT(t) | Opcode::BF(t) => t.0 <= end_u32(c) && j + 1 < c.items.len(),
        Opcode::JSR(_) => false,
        _ => true,
    }
}

/// Whether instruction `j` makes address `a` a leader: a branch makes its
/// target and the instruction after it leaders; a return makes the
/// instruction after it a leader, unless that is the last one.
pub open spec fn leader_from(c: ContainerView<Opcode>, j: int, a: usize) -> bool {
    match c.items[j] {
        Opcode::GOTO(t) | Opcode::BT(t) | Opcode::BF(t) => a == t.0 as usize || (j + 1 < c.items.len() && a == c.addrs[j + 1]),
        Opcode::RETURN => j + 1 < c.items.len() && c.addrs[j + 1] < c.addrs.last() && a == c.addrs[j + 1],
        _ => false,
    }
}

proof fn lemma_scan_direct(c: ContainerView<Opcode>, i: int, acc: Set<usize>)
    requires
        0 <= i <= c.items.len(),
        c.addrs.len() == c.items.len(),
    ensures
        (scan_leaders(c, i, acc) is Ok) <==> (forall|j: int| i <= j < c.items.len() ==> #[trigger] scan_ok_at(c, j)),
        scan_leaders(c, i, acc) matches Ok(l) ==> forall|a: usize| #[trigger] l.contains(a)
            <==> (acc.contains(a) || exists|j: int| i <= j < c.items.len() && #[trigger] leader_from(c, j, a)),
    decreases c.items.len() - i,
{
    if i < c.items.len() {
        match c.items[i] {
            Opcode::GOTO(t) | Opcode::BT(t) | Opcode::BF(t) => {
                if !(t.0 > end_u32(c) || i + 1 >= c.items.len()) {
                    let acc1 = acc.insert(t.0 as usize).insert(c.addrs[i + 1]);
                    lemma_scan_direct(c, i + 1, acc1);
                    assert forall|a: usize| acc1.contains(a) <==> (acc.contains(a) || leader_from(c, i, a)) by {}
                    if let Ok(l) = scan_leaders(c, i, acc) {
                        assert forall|a: usize| #[trigger] l.contains(a)
                            <==> (acc.contains(a) || exists|j: int| i <= j < c.items.len() && #[trigger] leader_from(c, j, a)) by {
                            if exists|j: int| i <= j < c.items.len() && #[trigger] leader_from(c, j, a) {
                                let j = choose|j: int| i <= j < c.items.len() && #[trigger] leader_from(c, j, a);
                                if j > i {
                                    assert(exists|j2: int| i + 1 <= j2 < c.items.len() && #[trigger] leader_from(c, j2, a));
                                }
                            }
                            if exists|j: int| i + 1 <= j < c.items.len() && #[trigger] leader_from(c, j, a) {
                                let j = choose|j: int| i + 1 <= j < c.items.len() && #[trigger] leader_from(c, j, a);
                                assert(i <= j);
                            }
                        }
                    }
                } else {
                    assert(!scan_ok_at(c, i));
                }
            },
            Opcode::RETURN => {
                let acc1 = if i + 1 < c.items.len() && c.addrs[i + 1] < c.addrs.last() { acc.insert(c.addrs[i + 1]) } else { acc };
                lemma_scan_direct(c, i + 1, acc1);
                assert forall|a: usize| acc1.contains(a) <==> (acc.contains(a) || leader_from(c, i, a)) by {}
                if let Ok(l) = scan_leaders(c, i, acc) {
                    assert forall|a: usize| #[trigger] l.contains(a)
                        <==> (acc.contains(a) || exists|j: int| i <= j < c.items.len() && #[trigger] leader_from(c, j, a)) by {
                        if exists|j: int| i <= j < c.items.len() && #[trigger] leader_from(c, j, a) {
                            let j = choose|j: int| i <= j < c.items.len() && #[trigger] leader_from(c, j, a);
                            if j > i {
                                assert(exists|j2: int| i + 1 <= j2 < c.items.len() && #[trigger] leader_from(c, j2, a));
                            }
                        }
                        if exists|j: int| i + 1 <= j < c.items.len() && #[trigger] leader_from(c, j, a) {
                            let j = choose|j: int| i + 1 <= j < c.items.len() && #[trigger] leader_from(c, j, a);
                            assert(i <= j);
                        }
                    }
                }
            },
            Opcode::JSR(_) => {
                assert(!scan_ok_at(c, i));
            },
            _ => {
                lemma_scan_direct(c, i + 1, acc);
                if let Ok(l) = scan_leaders(c, i, acc) {
                    assert forall|a: usize| #[trigger] l.contains(a)
                        <==> (acc.contains(a) || exists|j: int| i <= j < c.items.len() && #[trigger] leader_from(c, j, a)) by {
                        if exists|j: int| i <= j < c.items.len() && #[trigger] leader_from(c, j, a) {
                            let j = choose|j: int| i <= j < c.items.len() && #[trigger] leader_from(c, j, a);
                            assert(j != i);
                            assert(exists|j2: int| i + 1 <= j2 < c.items.len() && #[trigger] leader_from(c, j2, a));
                        }
                        if exists|j: int| i + 1 <= j < c.items.len() && #[trigger] leader_from(c, j, a) {
                            let j = choose|j: int| i + 1 <= j < c.items.len() && #[trigger] leader_from(c, j, a);
                            assert(i <= j);
                        }
                    }
                }
            },
        }
        if scan_leaders(c, i, acc) is Ok {
            assert forall|j: int| i <= j < c.items.len() implies #[trigger] scan_ok_at(c, j) by {
                if j > i {
                    assert(i + 1 <= j);
                }
            }
        }
    }
}

/// The blocks of a function start at its first address, at the target of
/// every branch, after every branch, and after every return but one before
/// the last instruction; the leaders can be found exactly where the
/// function has instructions, holds no `JSR` and every branch has a
/// successor and a target within it.
pub proof fn lemma_leaders_direct(c: ContainerView<Opcode>)
    requires
        c.addrs.len() == c.items.len(),
    ensures
        (spec_leaders(c) is Ok) <==> (c.items.len() > 0 && forall|j: int| 0 <= j < c.items.len() ==> #[trigger] scan_ok_at(c, j)),
        spec_leaders(c) matches Ok(l) ==> forall|a: usize| #[trigger] l.contains(a)
            <==> (a == c.addrs[0] || exists|j: int| 0 <= j < c.items.len() && #[trigger] leader_from(c, j, a)),
{
    if c.items.len() > 0 {
        lemma_scan_direct(c, 0, set![c.addrs[0]]);
    }
}

/// The terminator of a block whose last instruction is `last`, where `l`
/// are the leaders and `next` the address after the block.
pub open spec fn spec_terminator(last: Opcode, l: Seq<usize>, next: Option<usize>) -> Option<DisassemblyTerminator> {
    let fall = match next {
        Some(a) => spec_dense_index(l, a),
        None => None,
    };
    match last {
        Opcode::GOTO(x) => match spec_dense_index(l, x.0 as usize) {
            Some(t) => Some(DisassemblyTerminator::Jump { target: t }),
            None => None,
        },
        Opcode::RETURN => Some(DisassemblyTerminator::Return),
        Opcode::BT(x) => match (spec_dense_index(l, x.0 as usize), fall) {
            (Some(t), Some(f)) => Some(DisassemblyTerminator::BranchTrue { target_true: t, target_false: f }),
            _ => None,
        },
        Opcode::BF(x) => match (fall, spec_dense_index(l, x.0 as usize)) {
            (Some(t), Some(f)) => Some(DisassemblyTerminator::BranchTrue { target_true: t, target_false: f }),
            _ => None,
        },
        _ => match fall {
            Some(t) => Some(DisassemblyTerminator::Jump { target: t }),
            None => None,
        },
    }
}

/// The dense index where the block after the `k`th leader ends.
pub open spec fn block_end(c: ContainerView<Opcode>, l: Seq<usize>, k: int) -> Option<usize> {
    if k + 1 < l.len() {
        spec_dense_index(c.addrs, l[k + 1])
    } else {
        Some(c.items.len() as usize)
    }
}

/// The `k`th block: from the `k`th leader to the next one, or to the end.
pub open spec fn spec_block(c: ContainerView<Opcode>, l: Seq<usize>, k: int) -> Result<BlockView, DisassemblyError> {
    match (spec_dense_index(c.addrs, l[k]), block_end(c, l, k)) {
        (Some(bs), Some(ne)) => {
            if bs >= ne {
                Err(DisassemblyError::MalformedControlFlow)
            } else {
                match spec_terminator(c.items[ne - 1], l, spec_sparse_address(c.addrs, ne as int)) {
                    Some(t) => Ok(BlockView {
                        name: seq!['b'] + spec_decimal(k as nat),
                        container: ContainerView {
                            items: c.items.subrange(bs as int, ne as int),
                            addrs: c.addrs.subrange(bs as int, ne as int),
                        },
                        terminator: t,
                    }),
                    None => Err(DisassemblyError::MalformedControlFlow),
                }
            }
        },
        _ => Err(DisassemblyError::MalformedControlFlow),
    }
}

/// The blocks from the `k`th leader on.
pub open spec fn spec_blocks(c: ContainerView<Opcode>, l: Seq<usize>, k: int) -> Result<Seq<BlockView>, DisassemblyError>
    decreases l.len() - k,
{
    if k < 0 || k >= l.len() {
        Ok(seq![])
    } else {
        match spec_block(c, l, k) {
            Err(e) => Err(e),
            Ok(b) => match spec_blocks(c, l, k + 1) {
                Err(e) => Err(e),
                Ok(rest) => Ok(seq![b] + rest),
            },
        }
    }
}

/// The basic blocks of a function: one per leader, in address order.
pub open spec fn spec_make_blocks(c: ContainerView<Opcode>) -> Result<Seq<BlockView>, DisassemblyError> {
    match spec_leaders(c) {
        Err(e) => Err(e),
        Ok(s) => spec_blocks(c, sorted_set(s), 0),
    }
}

/// The position of `item` among the elements of `set`, if it is one.
pub fn find_index_in_btreeset(set: &BTreeSet<usize>, item: usize) -> (r: Option<usize>)
    ensures
        r == spec_dense_index(sorted_set(set@), item),
{
    SparseMap::new_presorted(sorted_members(set)).get_dense_index(item)
}

impl DisassemblyFunction {
    /// Disassembles a function whose control flow is well formed.
    pub fn disassemble(slice: &AddressedContainer<Opcode>) -> (res: Result<DisassemblyFunction, DisassemblyError>)
        requires
            spec_make_blocks(slice@) != Err::<Seq<BlockView>, DisassemblyError>(DisassemblyError::MalformedControlFlow),
        ensures
            match spec_make_blocks(slice@) {
                Ok(bs) => res matches Ok(f) && f@ == bs,
                Err(e) => res matches Err(e2) && e2 == e,
            },
    {
        DisassemblyFunction::try_disassemble(slice)
    }

    /// Disassembles a function; malformed control flow is reported as
    /// `MalformedControlFlow`.
    pub fn try_disassemble(slice: &AddressedContainer<Opcode>) -> (res: Result<DisassemblyFunction, DisassemblyError>)
        ensures
            match spec_make_blocks(slice@) {
                Ok(bs) => res matches Ok(f) && f@ == bs,
                Err(e) => res matches Err(e2) && e2 == e,
            },
    {
        let blocks = DisassemblyFunction::make_blocks(slice)?;
        Ok(DisassemblyFunction { blocks })
    }

    fn make_blocks(slice: &AddressedContainer<Opcode>) -> (res: Result<Vec<BasicBlock>, DisassemblyError>)
        ensures
            match spec_make_blocks(slice@) {
                Ok(bs) => res matches Ok(v) && v@.map_values(|b: BasicBlock| b@) == bs,
                Err(e) => res matches Err(e2) && e2 == e,
            },
    {
        let ghost c = slice@;
        slice.well_formed();
        let start = match slice.start_addr() {
            Some(a) => a,
            None => return Err(DisassemblyError::MalformedControlFlow),
        };
        let function_end_addr = match slice.end_addr() {
            Some(a) => a,
            None => return Err(DisassemblyError::MalformedControlFlow),
        };
        let end32: u32 = #[verifier::truncate] (function_end_addr as u32);
        let entries = slice.iter();
        let n = entries.len();
        let mut leader_set: BTreeSet<usize> = BTreeSet::new();
        set_insert(&mut leader_set, start);
        assert(leader_set@ =~= set![c.addrs[0]]);
        let mut i: usize = 0;
        while i < n
            invariant
                container_wf(c),
                c == slice@,
                n == c.items.len(),
                c.items.len() > 0,
                end32 == end_u32(c),
                function_end_addr == c.addrs.last(),
                entries@.len() == n,
                forall|j: int| 0 <= j < n ==> entries@[j].0 == c.addrs[j] && *entries@[j].1 == c.items[j],
                0 <= i <= n,
                spec_leaders(c) == scan_leaders(c, i as int, leader_set@),
            decreases n - i,
        {
            let (_addr, opcode) = entries[i];
            let op: Opcode = *opcode;
            match op {
                Opcode::GOTO(target) | Opcode::BT(target) | Opcode::BF(target) => {
                    if target.get_local_address() > end32 {
                        return Err(DisassemblyError::MalformedControlFlow);
                    }
                    let t = target.get_local_address() as usize;
                    let next_addr = match slice.idx_to_addr(i + 1) {
                        Some(a) => a,
                        None => return Err(DisassemblyError::MalformedControlFlow),
                    };
                    set_insert(&mut leader_set, t);
                    set_insert(&mut leader_set, next_addr);
                },
                Opcode::RETURN => {
                    match slice.idx_to_addr(i + 1) {
                        Some(next_addr) => {
                            if next_addr < function_end_addr {
                                set_insert(&mut leader_set, next_addr);
                            }
                        },
                        None => {},
                    }
                },
                Opcode::JSR(_) => {
                    return Err(DisassemblyError::CannotDissasembleJSR);
                },
                _ => {},
            }
            i = i + 1;
        }
        let leaders = SparseMap::new_presorted(sorted_members(&leader_set));
        let ghost l = leaders@;
        assert(spec_leaders(c) == Ok::<Set<usize>, DisassemblyError>(leader_set@));
        assert(l == sorted_set(leader_set@));
        let count = leaders.len();
        let mut blocks: Vec<BasicBlock> = Vec::new();
        let mut k: usize = 0;
        while k < count
            invariant
                container_wf(c),
                c == slice@,
                c.items.len() > 0,
                function_end_addr == c.addrs.last(),
                l == leaders@,
                count == l.len(),
                0 <= k <= count,
                spec_make_blocks(c) == (match spec_blocks(c, l, k as int) {
                    Ok(rest) => Ok(blocks@.map_values(|b: BasicBlock| b@) + rest),
                    Err(e) => Err::<Seq<BlockView>, DisassemblyError>(e),
                }),
            decreases count - k,
        {
            let block = match DisassemblyFunction::make_block(slice, &leaders, k) {
                Ok(b) => b,
                Err(e) => return Err(e),
            };
            let ghost before = blocks@.map_values(|b: BasicBlock| b@);
            let ghost bv = block@;
            blocks.push(block);
            proof {
                assert(blocks@.map_values(|b: BasicBlock| b@) =~= before.push(bv));
                match spec_blocks(c, l, k + 1) {
                    Ok(rest) => {
                        assert(before + (seq![bv] + rest) =~= before.push(bv) + rest);
                    },
                    Err(_) => {},
                }
            }
            k = k + 1;
        }
        assert(blocks@.map_values(|b: BasicBlock| b@) + seq![] =~= blocks@.map_values(|b: BasicBlock| b@));
        Ok(blocks)
    }

    /// The block that starts at the `k`th leader.
    fn make_block(slice: &AddressedContainer<Opcode>, leaders: &SparseMap, k: usize) -> (res: Result<BasicBlock, DisassemblyError>)
        requires
            container_wf(slice@),
            slice@.items.len() > 0,
            k < leaders@.len(),
        ensures
            match spec_block(slice@, leaders@, k as int) {
                Ok(b) => res matches Ok(blk) && blk@ == b,
                Err(e) => res matches Err(e2) && e2 == e,
            },
    {
        let ghost c = slice@;
        let ghost l = leaders@;
        let block_start_addr = leaders.get_sparse_address(k).unwrap();
        let block_start_idx = match slice.addr_to_idx(block_start_addr) {
            Some(x) => x,
            None => return Err(DisassemblyError::MalformedControlFlow),
        };
        let count = leaders.len();
        let next_block_idx = if k + 1 < count {
            let next_start = leaders.get_sparse_address(k + 1).unwrap();
            match slice.addr_to_idx(next_start) {
                Some(x) => x,
                None => return Err(DisassemblyError::MalformedControlFlow),
            }
        } else {
            slice.len()
        };
        assert(block_end(c, l, k as int) == Some(next_block_idx));
        if block_start_idx >= next_block_idx {
            return Err(DisassemblyError::MalformedControlFlow);
        }
        let next_addr = slice.idx_to_addr(next_block_idx);
        let new_view = slice.slice(block_start_idx, next_block_idx).unwrap();
        let last: Opcode = *new_view.last().unwrap();
        proof {
            assert(cloned(c.items[block_start_idx + (next_block_idx - block_start_idx - 1)], new_view@.items[next_block_idx - block_start_idx - 1]));
            assert(new_view@.items =~= c.items.subrange(block_start_idx as int, next_block_idx as int)) by {
                assert forall|j: int| 0 <= j < next_block_idx - block_start_idx implies new_view@.items[j] == c.items[block_start_idx + j] by {
                    assert(cloned(c.items[block_start_idx + j], new_view@.items[j]));
                }
            }
        }
        let fall = match next_addr {
            Some(a) => leaders.get_dense_index(a),
            None => None,
        };
        let terminator = match last {
            Opcode::GOTO(x) => match leaders.get_dense_index(x.get_local_address() as usize) {
                Some(t) => DisassemblyTerminator::Jump { target: t },
                None => return Err(DisassemblyError::MalformedControlFlow),
            },
            Opcode::RETURN => DisassemblyTerminator::Return,
            Opcode::BT(x) => match (leaders.get_dense_index(x.get_local_address() as usize), fall) {
                (Some(t), Some(f)) => DisassemblyTerminator::BranchTrue { target_true: t, target_false: f },
                _ => return Err(DisassemblyError::MalformedControlFlow),
            },
            Opcode::BF(x) => match (fall, leaders.get_dense_index(x.get_local_address() as usize)) {
                (Some(t), Some(f)) => DisassemblyTerminator::BranchTrue { target_true: t, target_false: f },
                _ => return Err(DisassemblyError::MalformedControlFlow),
            },
            _ => match fall {
                Some(t) => DisassemblyTerminator::Jump { target: t },
                None => return Err(DisassemblyError::MalformedControlFlow),
            },
        };
        let name = prefixed_decimal("b", k);
        proof {
            reveal_strlit("b");
            assert(name@ =~= seq!['b'] + spec_decimal(k as nat));
            assert(spec_dense_index(c.addrs, l[k as int]) == Some(block_start_idx));
            assert(new_view@.addrs == c.addrs.subrange(block_start_idx as int, next_block_idx as int));
            assert(c.items[next_block_idx - 1] == last);
            assert(spec_terminator(last, l, spec_sparse_address(c.addrs, next_block_idx as int)) == Some(terminator));
        }
        Ok(BasicBlock { name, container: new_view, terminator })
    }
}

impl TFunction<BasicBlock> for DisassemblyFunction {
    open spec fn spec_blocks(&self) -> Seq<BasicBlock> {
        self.blocks@
    }

    fn get_blocks_for_function(&self) -> (v: Vec<&BasicBlock>)
        ensures
            v@.len() == self.blocks@.len(),
            forall|i: int| 0 <= i < v@.len() ==> *v@[i] == self.blocks@[i],
    {
        let mut v: Vec<&BasicBlock> = Vec::new();
        let mut i: usize = 0;
        while i < self.blocks.len()
            invariant
                i <= self.blocks@.len(),
                v@.len() == i,
                forall|j: int| 0 <= j < i ==> *v@[j] == self.blocks@[j],
            decreases self.blocks@.len() - i,
        {
            v.push(&self.blocks[i]);
            i = i + 1;
        }
        v
    }
}

/// The IL-independent form of a disassembly terminator.
pub open spec fn generic_of(t: DisassemblyTerminator) -> GenericTerminator {
    match t {
        DisassemblyTerminator::Jump { target } => GenericTerminator::Jump { target },
        DisassemblyTerminator::BranchTrue { target_true, target_false } => GenericTerminator::BranchTrue { target_true, target_false },
        DisassemblyTerminator::Return => GenericTerminator::Return,
    }
}

impl TBlock<Opcode> for BasicBlock {
    open spec fn spec_name(&self) -> Seq<char> {
        self.name@
    }

    open spec fn spec_terminator(&self) -> GenericTerminator {
        generic_of(self.terminator)
    }

    open spec fn spec_bounds(&self) -> Option<(usize, usize)> {
        if self.container@.addrs.len() == 0 {
            None
        } else {
            Some((self.container@.addrs[0], self.container@.addrs.last()))
        }
    }

    open spec fn spec_instructions(&self) -> Seq<(Option<usize>, Opcode)> {
        Seq::new(self.container@.items.len(), |i: int| (Some(self.container@.addrs[i]), self.container@.items[i]))
    }

    fn get_block_name(&self) -> (s: &String)
        ensures
            s@ == self.name@,
    {
        &self.name
    }

    fn len(&self) -> (n: usize)
        ensures
            n == self.container@.items.len(),
    {
        self.container.len()
    }

    fn get_block_terminator(&self) -> (t: GenericTerminator)
        ensures
            t == generic_of(self.terminator),
    {
        match self.terminator {
            DisassemblyTerminator::Jump { target } => GenericTerminator::Jump { target },
            DisassemblyTerminator::BranchTrue { target_true, target_false } => GenericTerminator::BranchTrue { target_true, target_false },
            DisassemblyTerminator::Return => GenericTerminator::Return,
        }
    }

    fn get_block_address_bounds(&self) -> (r: Option<(usize, usize)>)
        ensures
            r == (if self.container@.addrs.len() == 0 {
                None
            } else {
                Some((self.container@.addrs[0], self.container@.addrs.last()))
            }),
    {
        match (self.container.start_addr(), self.container.end_addr()) {
            (Some(s), Some(e)) => Some((s, e)),
            _ => None,
        }
    }

    fn get_instructions_for_block(&self) -> (v: Vec<(Option<usize>, &Opcode)>)
        ensures
            v@.len() == self.container@.items.len(),
            forall|i: int| 0 <= i < v@.len() ==> v@[i].0 == Some(self.container@.addrs[i]) && *v@[i].1 == self.container@.items[i],
    {
        let entries = self.container.iter();
        let mut v: Vec<(Option<usize>, &Opcode)> = Vec::new();
        let mut i: usize = 0;
        while i < entries.len()
            invariant
                i <= entries@.len(),
                entries@.len() == self.container@.items.len(),
                forall|j: int| 0 <= j < entries@.len() ==> entries@[j].0 == self.container@.addrs[j] && *entries@[j].1 == self.container@.items[j],
                v@.len() == i,
                forall|j: int| 0 <= j < i ==> v@[j].0 == Some(self.container@.addrs[j]) && *v@[j].1 == self.container@.items[j],
            decreases entries@.len() - i,
        {
            let (a, o) = entries[i];
            v.push((Some(a), o));
            i = i + 1;
        }
        v
    }
}

/// The instructions of blocks, one block after another.
pub open spec fn block_items(bs: Seq<BlockView>) -> Seq<Opcode>
    decreases bs.len(),
{
    if bs.len() == 0 {
        seq![]
    } else {
        bs[0].container.items + block_items(bs.drop_first())
    }
}

/// The addresses of blocks, one block after another.
pub open spec fn block_addrs(bs: Seq<BlockView>) -> Seq<usize>
    decreases bs.len(),
{
    if bs.len() == 0 {
        seq![]
    } else {
        bs[0].container.addrs + block_addrs(bs.drop_first())
    }
}

/// The blocks that a terminator leads to are among the first `n`.
pub open spec fn targets_within(t: DisassemblyTerminator, n: int) -> bool {
    match t {
        DisassemblyTerminator::Jump { target } => target < n,
        DisassemblyTerminator::BranchTrue { target_true, target_false } => target_true < n && target_false < n,
        DisassemblyTerminator::Return => true,
    }
}

/// The scan only adds leaders, and what it finds of a finite start is
/// finite.
proof fn lemma_scan_grows(c: ContainerView<Opcode>, i: int, acc: Set<usize>)
    ensures
        scan_leaders(c, i, acc) matches Ok(s) ==> acc.subset_of(s) && (acc.finite() ==> s.finite()),
    decreases c.items.len() - i,
{
    if 0 <= i < c.items.len() {
        match c.items[i] {
            Opcode::GOTO(t) | Opcode::BT(t) | Opcode::BF(t) => {
                if !(t.0 > end_u32(c) || i + 1 >= c.items.len()) {
                    lemma_scan_grows(c, i + 1, acc.insert(t.0 as usize).insert(c.addrs[i + 1]));
                }
            },
            Opcode::RETURN => {
                if i + 1 < c.items.len() && c.addrs[i + 1] < c.addrs.last() {
                    lemma_scan_grows(c, i + 1, acc.insert(c.addrs[i + 1]));
                } else {
                    lemma_scan_grows(c, i + 1, acc);
                }
            },
            Opcode::JSR(_) => {},
            _ => {
                lemma_scan_grows(c, i + 1, acc);
            },
        }
    }
}

/// The blocks from the `k`th leader on are one per leader.
proof fn lemma_blocks_shape(c: ContainerView<Opcode>, l: Seq<usize>, k: int)
    requires
        0 <= k <= l.len(),
        spec_blocks(c, l, k) is Ok,
    ensures
        spec_blocks(c, l, k)->Ok_0.len() == l.len() - k,
        forall|j: int| 0 <= j < l.len() - k ==> spec_block(c, l, k + j) == Ok::<BlockView, DisassemblyError>(#[trigger] spec_blocks(c, l, k)->Ok_0[j]),
    decreases l.len() - k,
{
    if k < l.len() {
        lemma_blocks_shape(c, l, k + 1);
        let r = spec_blocks(c, l, k)->Ok_0;
        let rest = spec_blocks(c, l, k + 1)->Ok_0;
        assert forall|j: int| 0 <= j < l.len() - k implies spec_block(c, l, k + j) == Ok::<BlockView, DisassemblyError>(#[trigger] r[j]) by {
            if j > 0 {
                assert(r[j] == rest[j - 1]);
            }
        }
    }
}

/// The blocks from the `k`th leader on hold the instructions from that
/// leader to the end of the function.
proof fn lemma_blocks_concat(c: ContainerView<Opcode>, l: Seq<usize>, k: int)
    requires
        container_wf(c),
        c.items.len() <= usize::MAX,
        0 <= k < l.len(),
        spec_blocks(c, l, k) is Ok,
    ensures
        spec_dense_index(c.addrs, l[k]) is Some,
        block_items(spec_blocks(c, l, k)->Ok_0) == c.items.subrange(spec_dense_index(c.addrs, l[k])->0 as int, c.items.len() as int),
        block_addrs(spec_blocks(c, l, k)->Ok_0) == c.addrs.subrange(spec_dense_index(c.addrs, l[k])->0 as int, c.items.len() as int),
    decreases l.len() - k,
{
    let r = spec_blocks(c, l, k)->Ok_0;
    let b = spec_block(c, l, k)->Ok_0;
    let s0 = spec_dense_index(c.addrs, l[k])->0 as int;
    let e0 = block_end(c, l, k)->0 as int;
    assert(r.drop_first() == spec_blocks(c, l, k + 1)->Ok_0);
    assert(r[0] == b);
    assert(b.container.items == c.items.subrange(s0, e0));
    assert(b.container.addrs == c.addrs.subrange(s0, e0));
    assert(block_items(r) == b.container.items + block_items(r.drop_first()));
    assert(block_addrs(r) == b.container.addrs + block_addrs(r.drop_first()));
    if k + 1 < l.len() {
        lemma_blocks_concat(c, l, k + 1);
        assert(e0 == spec_dense_index(c.addrs, l[k + 1])->0 as int);
        assert(c.addrs.contains(l[k + 1]));
        assert(e0 < c.items.len());
        assert(c.items.subrange(s0, e0) + c.items.subrange(e0, c.items.len() as int) =~= c.items.subrange(s0, c.items.len() as int));
        assert(c.addrs.subrange(s0, e0) + c.addrs.subrange(e0, c.items.len() as int) =~= c.addrs.subrange(s0, c.items.len() as int));
    } else {
        assert(spec_blocks(c, l, k + 1)->Ok_0 == Seq::<BlockView>::empty());
        assert(block_items(r.drop_first()) =~= seq![]);
        assert(block_addrs(r.drop_first()) =~= seq![]);
        assert(b.container.items + seq![] =~= b.container.items);
        assert(b.container.addrs + seq![] =~= b.container.addrs);
    }
}

/// Block `t` of `bs` exists and starts at address `a`.
pub open spec fn block_starts_at(bs: Seq<BlockView>, t: int, a: usize) -> bool {
    &&& 0 <= t < bs.len()
    &&& bs[t].container.addrs.len() > 0
    &&& bs[t].container.addrs[0] == a
}

/// Where control goes after block `k`, read off its last instruction: a
/// `GOTO` to the block at its target; a `BT` to the block at its target when
/// the test holds and on to the next block when it does not; a `BF` on to the
/// next block when the test holds and to the block at its target when it does
/// not; a `RETURN` nowhere; any other instruction on to the next block.
pub open spec fn exits_follow_last(bs: Seq<BlockView>, k: int) -> bool {
    match bs[k].container.items.last() {
        Opcode::GOTO(x) => bs[k].terminator matches DisassemblyTerminator::Jump { target }
            && block_starts_at(bs, target as int, x.0 as usize),
        Opcode::BT(x) => bs[k].terminator matches DisassemblyTerminator::BranchTrue { target_true, target_false }
            && block_starts_at(bs, target_true as int, x.0 as usize)
            && target_false == k + 1 && k + 1 < bs.len(),
        Opcode::BF(x) => bs[k].terminator matches DisassemblyTerminator::BranchTrue { target_true, target_false }
            && target_true == k + 1 && k + 1 < bs.len()
            && block_starts_at(bs, target_false as int, x.0 as usize),
        Opcode::RETURN => bs[k].terminator == DisassemblyTerminator::Return,
        _ => bs[k].terminator == DisassemblyTerminator::Jump { target: (k + 1) as usize } && k + 1 < bs.len(),
    }
}

/// In a strictly increasing sequence of addresses, an address is at least
/// its position.
pub proof fn lemma_index_le_key(s: Seq<usize>, i: int)
    requires
        strictly_increasing(s),
        0 <= i < s.len(),
    ensures
        i <= s[i],
    decreases i,
{
    if i > 0 {
        lemma_index_le_key(s, i - 1);
    }
}

/// A key that occurs in a sequence is found at a position that holds it.
pub proof fn lemma_dense_index_found(s: Seq<usize>, key: usize)
    requires
        strictly_increasing(s),
        s.contains(key),
    ensures
        spec_dense_index(s, key) is Some,
        (spec_dense_index(s, key)->0 as int) < s.len(),
        s[spec_dense_index(s, key)->0 as int] == key,
{
    let i = choose|i: int| 0 <= i < s.len() && s[i] == key;
    lemma_index_le_key(s, i);
}

/// A block made for leader `t` starts at that leader.
proof fn lemma_block_start(c: ContainerView<Opcode>, l: Seq<usize>, t: int)
    requires
        container_wf(c),
        c.items.len() <= usize::MAX,
        0 <= t < l.len(),
        spec_block(c, l, t) is Ok,
    ensures
        spec_block(c, l, t)->Ok_0.container.addrs.len() > 0,
        spec_block(c, l, t)->Ok_0.container.addrs[0] == l[t],
{
    assert(c.addrs.contains(l[t]));
    lemma_dense_index_found(c.addrs, l[t]);
    if t + 1 < l.len() {
        assert(c.addrs.contains(l[t + 1]));
        lemma_dense_index_found(c.addrs, l[t + 1]);
    }
}

/// The exits of the block of leader `k`, in terms of leaders.
proof fn lemma_block_exits(c: ContainerView<Opcode>, l: Seq<usize>, k: int)
    requires
        container_wf(c),
        c.items.len() <= usize::MAX,
        strictly_increasing(l),
        0 <= k < l.len(),
        spec_block(c, l, k) is Ok,
    ensures
        ({
            let b = spec_block(c, l, k)->Ok_0;
            let leads = |t: usize, a: usize| (t as int) < l.len() && l[t as int] == a;
            match b.container.items.last() {
                Opcode::GOTO(x) => b.terminator matches DisassemblyTerminator::Jump { target } && leads(target, x.0 as usize),
                Opcode::BT(x) => b.terminator matches DisassemblyTerminator::BranchTrue { target_true, target_false }
                    && leads(target_true, x.0 as usize) && target_false == k + 1 && k + 1 < l.len(),
                Opcode::BF(x) => b.terminator matches DisassemblyTerminator::BranchTrue { target_true, target_false }
                    && target_true == k + 1 && k + 1 < l.len() && leads(target_false, x.0 as usize),
                Opcode::RETURN => b.terminator == DisassemblyTerminator::Return,
                _ => b.terminator == DisassemblyTerminator::Jump { target: (k + 1) as usize } && k + 1 < l.len(),
            }
        }),
{
    let b = spec_block(c, l, k)->Ok_0;
    let s0 = spec_dense_index(c.addrs, l[k])->0 as int;
    let ne = block_end(c, l, k)->0 as int;
    let next = spec_sparse_address(c.addrs, ne);
    let last = c.items[ne - 1];
    assert(c.addrs.contains(l[k]));
    lemma_dense_index_found(c.addrs, l[k]);
    assert(spec_terminator(last, l, next) == Some(b.terminator));
    assert(b.container.items.last() == last);
    if k + 1 < l.len() {
        assert(c.addrs.contains(l[k + 1]));
        lemma_dense_index_found(c.addrs, l[k + 1]);
        lemma_index_le_key(l, k + 1);
        assert(next == Some(l[k + 1]));
        lemma_dense_index_unique(l, l[k + 1], k + 1);
    } else {
        assert(next is None);
    }
    match last {
        Opcode::GOTO(x) | Opcode::BT(x) | Opcode::BF(x) => {
            if l.contains(x.0 as usize) {
                lemma_dense_index_found(l, x.0 as usize);
            }
        },
        _ => {},
    }
}

/// Every block's exits are those that its last instruction calls for: a
/// `BT` goes to its target when the test holds, a `BF` when it does not,
/// and the other way to the next block in address order.
pub proof fn lemma_exits_follow_last(c: ContainerView<Opcode>)
    requires
        container_wf(c),
        c.items.len() <= usize::MAX,
        spec_make_blocks(c) is Ok,
    ensures
        forall|k: int| 0 <= k < spec_make_blocks(c)->Ok_0.len() ==> #[trigger] exits_follow_last(spec_make_blocks(c)->Ok_0, k),
{
    let s = spec_leaders(c)->Ok_0;
    lemma_scan_grows(c, 0, set![c.addrs[0]]);
    lemma_sorted_listing_exists(s);
    let l = sorted_set(s);
    let bs = spec_blocks(c, l, 0)->Ok_0;
    lemma_blocks_shape(c, l, 0);
    assert forall|t: int| 0 <= t < bs.len() implies (#[trigger] bs[t]).container.addrs.len() > 0 && bs[t].container.addrs[0] == l[t] by {
        assert(spec_block(c, l, 0 + t) == Ok::<BlockView, DisassemblyError>(bs[t]));
        lemma_block_start(c, l, t);
    }
    assert forall|k: int| 0 <= k < bs.len() implies #[trigger] exits_follow_last(bs, k) by {
        assert(spec_block(c, l, 0 + k) == Ok::<BlockView, DisassemblyError>(bs[k]));
        lemma_block_exits(c, l, k);
    }
}

/// Disassembly cuts a function into blocks that hold all its instructions,
/// each once and in order, and every jump and branch leads to one of the
/// blocks.
pub proof fn lemma_blocks_partition(c: ContainerView<Opcode>)
    requires
        container_wf(c),
        c.items.len() <= usize::MAX,
        spec_make_blocks(c) is Ok,
    ensures
        block_items(spec_make_blocks(c)->Ok_0) == c.items,
        block_addrs(spec_make_blocks(c)->Ok_0) == c.addrs,
        forall|k: int| 0 <= k < spec_make_blocks(c)->Ok_0.len()
            ==> targets_within(#[trigger] spec_make_blocks(c)->Ok_0[k].terminator, spec_make_blocks(c)->Ok_0.len() as int),
{
    let s = spec_leaders(c)->Ok_0;
    lemma_scan_grows(c, 0, set![c.addrs[0]]);
    lemma_sorted_listing_exists(s);
    let l = sorted_set(s);
    let bs = spec_blocks(c, l, 0)->Ok_0;
    assert(s.contains(c.addrs[0]));
    assert(l.to_set().contains(c.addrs[0]));
    assert(l.contains(c.addrs[0]));
    let j = choose|j: int| 0 <= j < l.len() && l[j] == c.addrs[0];
    lemma_blocks_shape(c, l, 0);
    lemma_blocks_concat(c, l, 0);
    let s0 = spec_dense_index(c.addrs, l[0])->0 as int;
    assert(c.addrs.contains(l[0]));
    assert(0 <= s0 < c.addrs.len() && c.addrs[s0] == l[0]);
    if j > 0 {
        assert(l[0] < l[j]);
    }
    if s0 > 0 {
        assert(c.addrs[0] < c.addrs[s0]);
    }
    assert(l[0] == c.addrs[0]);
    lemma_dense_index_unique(c.addrs, c.addrs[0], 0);
    assert(c.items.subrange(0, c.items.len() as int) =~= c.items);
    assert(c.addrs.subrange(0, c.items.len() as int) =~= c.addrs);
    assert forall|k: int| 0 <= k < bs.len() implies targets_within(#[trigger] bs[k].terminator, bs.len() as int) by {
        assert(spec_block(c, l, 0 + k) == Ok::<BlockView, DisassemblyError>(bs[k]));
        lemma_terminator_targets(c, l, k);
    }
}

/// A terminator leads to leaders, so to blocks.
proof fn lemma_terminator_targets(c: ContainerView<Opcode>, l: Seq<usize>, k: int)
    requires
        0 <= k < l.len(),
        spec_block(c, l, k) is Ok,
    ensures
        targets_within(spec_block(c, l, k)->Ok_0.terminator, l.len() as int),
{
    let b = spec_block(c, l, k)->Ok_0;
    let ne = block_end(c, l, k)->0;
    let next = spec_sparse_address(c.addrs, ne as int);
    let last = c.items[ne - 1];
    assert(spec_terminator(last, l, next) == Some(b.terminator));
    assert forall|a: usize| (#[trigger] spec_dense_index(l, a)) is Some implies spec_dense_index(l, a)->0 < l.len() by {
        if l.contains(a) {
            let i = choose|i: int| 0 <= i < l.len() && l[i] == a;
        }
    }
    match next {
        Some(a) => {
            assert(spec_dense_index(l, a) is Some ==> spec_dense_index(l, a)->0 < l.len());
        },
        None => {},
    }
    match last {
        Opcode::GOTO(x) | Opcode::BT(x) | Opcode::BF(x) => {
            assert(spec_dense_index(l, x.0 as usize) is Some ==> spec_dense_index(l, x.0 as usize)->0 < l.len());
        },
        _ => {},
    }
}

} // verus!
