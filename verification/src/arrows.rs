//! The arrows drawn beside a listing for jumps and branches. Each arrow
//! gets a depth (a column) when it is added, so that the arrows of any one
//! line can be drawn without looking at the lines before it.
use vstd::prelude::*;

use crate::text::spec_decimal;
use crate::traits::GenericTerminator;

verus! {

/// A range of line positions, from the line an arrow leaves to the line it
/// enters; `end` may lie before `start`.
#[derive(Debug, Clone, Copy, PartialEq, Eq, Structural)]
pub struct AddressRange {
    pub start: usize,
    pub end: usize,
}

impl AddressRange {
    pub open spec fn lo(self) -> usize {
        if self.start <= self.end { self.start } else { self.end }
    }

    pub open spec fn hi(self) -> usize {
        if self.start <= self.end { self.end } else { self.start }
    }

    /// Whether two ranges share a line, whichever way each points.
    pub open spec fn spec_intersects(self, other: AddressRange) -> bool {
        self.lo() <= other.hi() && other.lo() <= self.hi()
    }

    pub fn intersects(&self, other: &AddressRange) -> (b: bool)
        ensures
            b == self.spec_intersects(*other),
    {
        let self_min = if self.start <= self.end { self.start } else { self.end };
        let self_max = if self.start <= self.end { self.end } else { self.start };
        let other_min = if other.start <= other.end { other.start } else { other.end };
        let other_max = if other.start <= other.end { other.end } else { other.start };
        self_min <= other_max && other_min <= self_max
    }

    /// A range of two different lines.
    pub fn new(start: usize, end: usize) -> (r: AddressRange)
        requires
            start != end,
        ensures
            r.start == start && r.end == end,
    {
        AddressRange { start, end }
    }

    pub fn last_addr(&self) -> (a: usize)
        ensures
            a == self.hi(),
    {
        if self.end > self.start { self.end } else { self.start }
    }

    pub fn first_addr(&self) -> (a: usize)
        ensures
            a == self.lo(),
    {
        if self.end > self.start { self.start } else { self.end }
    }
}

/// What an arrow stands for, which decides its colour.
#[derive(Debug, Clone, Copy, PartialEq, Eq, Structural)]
pub enum ArrowType {
    Always,
    IfTrue,
    IfFalse,
}

/// An arrow: its range and its column.
#[derive(Debug, Clone, Copy, PartialEq, Eq, Structural)]
pub struct Arrow {
    pub range: AddressRange,
    pub depth: u8,
    pub arrowtype: ArrowType,
}

impl Arrow {
    /// The arrow's depth, where it meets `other`.
    pub fn depth_if_intersect(&self, other: &AddressRange) -> (r: Option<u8>)
        ensures
            r == (if self.range.spec_intersects(*other) { Some(self.depth) } else { None::<u8> }),
    {
        if self.range.intersects(other) {
            Some(self.depth)
        } else {
            None
        }
    }
}

/// Whether an arrow meeting `range` already has depth `d`.
pub open spec fn depth_used(arrows: Seq<Arrow>, range: AddressRange, d: int) -> bool {
    exists|i: int| 0 <= i < arrows.len() && arrows[i].range.spec_intersects(range) && arrows[i].depth == d
}

/// The least depth from `d` on that no arrow meeting `range` has; 256 if
/// every one is taken.
pub open spec fn first_free_from(arrows: Seq<Arrow>, range: AddressRange, d: int) -> int
    decreases 256 - d,
{
    if d >= 256 {
        256
    } else if !depth_used(arrows, range, d) {
        d
    } else {
        first_free_from(arrows, range, d + 1)
    }
}

/// The free depth found from `d` lies at or after it; a used depth passes
/// the search on, a free one ends it.
pub proof fn lemma_first_free(arrows: Seq<Arrow>, range: AddressRange, d: int)
    requires
        0 <= d <= 256,
    ensures
        d <= first_free_from(arrows, range, d) <= 256,
        d < 256 && depth_used(arrows, range, d) ==> first_free_from(arrows, range, d) == first_free_from(arrows, range, d + 1),
        d < 256 && !depth_used(arrows, range, d) ==> first_free_from(arrows, range, d) == d,
        first_free_from(arrows, range, d) < 256 ==> !depth_used(arrows, range, first_free_from(arrows, range, d)),
    decreases 256 - d,
{
    if d < 256 && depth_used(arrows, range, d) {
        lemma_first_free(arrows, range, d + 1);
    }
}

/// Every arrow has a depth that no arrow it meets has, and `max_depth` is
/// the greatest depth.
pub open spec fn arrows_wf(arrows: Seq<Arrow>, max_depth: u8) -> bool {
    &&& forall|i: int, j: int| 0 <= i < j < arrows.len() && arrows[i].range.spec_intersects(arrows[j].range)
        ==> arrows[i].depth != arrows[j].depth
    &&& forall|i: int| 0 <= i < arrows.len() ==> (#[trigger] arrows[i]).depth <= max_depth
    &&& (arrows.len() == 0 ==> max_depth == 0)
    &&& (arrows.len() > 0 ==> exists|i: int| 0 <= i < arrows.len() && arrows[i].depth == max_depth)
}

/// The arrows of a listing.
pub struct Arrows {
    arrows: Vec<Arrow>,
    max_depth: u8,
}

pub struct ArrowsView {
    pub arrows: Seq<Arrow>,
    pub max_depth: u8,
}

impl View for Arrows {
    type V = ArrowsView;

    closed spec fn view(&self) -> ArrowsView {
        ArrowsView { arrows: self.arrows@, max_depth: self.max_depth }
    }
}

/// How an arrow crosses a line.
#[derive(Debug, Clone, Copy, PartialEq, Eq, Structural)]
pub enum LineType {
    Blank,
    Starting,
    Stopping,
    Through,
}

/// How arrow `a` crosses line `addr`: with `nudge_before` (a line before
/// the last one of its address) an arrow that starts there downwards is not
/// drawn yet and every other one passes; otherwise it stops on its last
/// line, starts on its first, and passes in between.
pub open spec fn line_type(a: Arrow, addr: usize, nudge_before: bool) -> LineType {
    if nudge_before {
        if a.range.lo() == addr && a.range.hi() > a.range.lo() {
            LineType::Blank
        } else {
            LineType::Through
        }
    } else if addr == a.range.hi() {
        LineType::Stopping
    } else if addr == a.range.lo() {
        LineType::Starting
    } else {
        LineType::Through
    }
}

/// The arrows that cross line `addr`, in order, with their depths and how
/// they cross it.
pub open spec fn crossing(arrows: Seq<Arrow>, addr: usize, nudge_before: bool) -> Seq<(u8, LineType)>
    decreases arrows.len(),
{
    if arrows.len() == 0 {
        seq![]
    } else {
        let rest = crossing(arrows.drop_last(), addr, nudge_before);
        let a = arrows.last();
        if a.range.lo() <= addr && addr <= a.range.hi() {
            rest.push((a.depth, line_type(a, addr, nudge_before)))
        } else {
            rest
        }
    }
}

/// How the first crossing arrow at depth `d` crosses the line.
pub open spec fn first_at_depth(entries: Seq<(u8, LineType)>, d: int) -> Option<LineType>
    decreases entries.len(),
{
    if entries.len() == 0 {
        None
    } else if entries[0].0 == d {
        Some(entries[0].1)
    } else {
        first_at_depth(entries.drop_first(), d)
    }
}

/// The cells of columns `d` down to 0; `draw` says whether a horizontal
/// line runs on towards the listing.
pub open spec fn cells(entries: Seq<(u8, LineType)>, d: int, draw: bool) -> Seq<char>
    decreases d + 1,
{
    if d < 0 {
        seq![]
    } else {
        let (c, next) = match first_at_depth(entries, d) {
            Some(LineType::Starting) => (if draw { '┬' } else { '╭' }, true),
            Some(LineType::Stopping) => (if draw { '┴' } else { '╰' }, true),
            Some(LineType::Through) => ('│', draw),
            Some(LineType::Blank) => (' ', draw),
            None => (if draw { '─' } else { ' ' }, draw),
        };
        seq![c] + cells(entries, d - 1, next)
    }
}

/// The head of the arrows at the listing: one entering and one leaving, one
/// entering, one leaving, or none.
pub open spec fn head(enter: bool, exit: bool) -> char {
    if enter && exit {
        '■'
    } else if enter {
        '▶'
    } else if exit {
        '─'
    } else {
        ' '
    }
}

/// Whether an arrow that crosses line `addr` starts (`leaves`) or ends there.
pub open spec fn arrow_at(arrows: Seq<Arrow>, addr: usize, leaves: bool) -> bool {
    exists|i: int| 0 <= i < arrows.len() && arrows[i].range.lo() <= addr <= arrows[i].range.hi()
        && (if leaves { arrows[i].range.start == addr } else { arrows[i].range.end == addr })
}

/// The columns the arrows need: one per depth and one for the gutter.
pub open spec fn space_needed(v: ArrowsView) -> int {
    if v.arrows.len() == 0 { 0 } else { v.max_depth + 1 }
}

/// The text of line `addr`: its columns from the deepest, then the head
/// (drawn only on the last line of an address), then a space.
pub open spec fn spec_render(v: ArrowsView, addr: usize, nudge_before: bool) -> Seq<char> {
    let entries = crossing(v.arrows, addr, nudge_before);
    let enter = !nudge_before && arrow_at(v.arrows, addr, false);
    let exit = !nudge_before && arrow_at(v.arrows, addr, true);
    cells(entries, space_needed(v) - 1, false) + seq![head(enter, exit), ' ']
}

impl Arrows {
    pub fn new() -> (a: Arrows)
        ensures
            arrows_wf(a@.arrows, a@.max_depth),
            a@.arrows == Seq::<Arrow>::empty(),
            a@.max_depth == 0,
    {
        Arrows { arrows: Vec::new(), max_depth: 0 }
    }

    /// Adds an arrow from line `start` to line `end` at the least depth that
    /// no arrow it meets has; an arrow to the very next line (a fall
    /// through) is not drawn.
    pub fn add_arrow(&mut self, start: usize, end: usize, arrowtype: ArrowType)
        requires
            arrows_wf(old(self)@.arrows, old(self)@.max_depth),
            (end > start && end - start == 1) || (start != end
                && first_free_from(old(self)@.arrows, AddressRange { start, end }, 0) < 256),
        ensures
            arrows_wf(final(self)@.arrows, final(self)@.max_depth),
            (end > start && end - start == 1) ==> final(self)@ == old(self)@,
            !(end > start && end - start == 1) ==> {
                let d = first_free_from(old(self)@.arrows, AddressRange { start, end }, 0);
                &&& final(self)@.arrows == old(self)@.arrows.push(Arrow { range: AddressRange { start, end }, depth: d as u8, arrowtype })
                &&& final(self)@.max_depth == (if d > old(self)@.max_depth { d as u8 } else { old(self)@.max_depth })
            },
    {
        if end > start && end - start == 1 {
            return;
        }
        let range = AddressRange::new(start, end);
        let mut intersect_depths: Vec<u8> = Vec::new();
        let mut i: usize = 0;
        while i < self.arrows.len()
            invariant
                i <= self.arrows@.len(),
                forall|d: u8| intersect_depths@.contains(d) <==> exists|j: int| 0 <= j < i && self.arrows@[j].range.spec_intersects(range) && self.arrows@[j].depth == d,
            decreases self.arrows@.len() - i,
        {
            let ghost before = intersect_depths@;
            match self.arrows[i].depth_if_intersect(&range) {
                Some(d) => {
                    intersect_depths.push(d);
                    assert forall|x: u8| intersect_depths@.contains(x) <==> exists|j: int| 0 <= j < i + 1 && self.arrows@[j].range.spec_intersects(range) && self.arrows@[j].depth == x by {
                        if intersect_depths@.contains(x) && x != d {
                            let k = choose|k: int| 0 <= k < intersect_depths@.len() && intersect_depths@[k] == x;
                            assert(before[k] == x);
                            assert(before.contains(x));
                        }
                        if exists|j: int| 0 <= j < i && self.arrows@[j].range.spec_intersects(range) && self.arrows@[j].depth == x {
                            assert(before.contains(x));
                            let k = choose|k: int| 0 <= k < before.len() && before[k] == x;
                            assert(intersect_depths@[k] == x);
                        }
                        if x == d {
                            assert(intersect_depths@[before.len() as int] == d);
                        }
                    }
                },
                None => {},
            }
            i = i + 1;
        }
        let ghost arrows = self.arrows@;
        proof { lemma_first_free(arrows, range, 0); }
        let mut depth: u8 = 0;
        while contains_u8(&intersect_depths, depth)
            invariant
                forall|d: u8| intersect_depths@.contains(d) <==> depth_used(arrows, range, d as int),
                first_free_from(arrows, range, 0) < 256,
                first_free_from(arrows, range, 0) == first_free_from(arrows, range, depth as int),
                depth as int <= first_free_from(arrows, range, 0),
            decreases 256 - depth,
        {
            assert(depth_used(arrows, range, depth as int));
            proof {
                lemma_first_free(arrows, range, depth as int);
                lemma_first_free(arrows, range, depth + 1);
            }
            assert(depth < 255);
            depth = depth + 1;
        }
        proof { lemma_first_free(arrows, range, depth as int); }
        assert(!depth_used(arrows, range, depth as int));
        if depth > self.max_depth {
            self.max_depth = depth;
        }
        let ghost md = self.max_depth;
        proof {
            let new_arrow = Arrow { range, depth, arrowtype };
            let na = arrows.push(new_arrow);
            assert forall|i: int, j: int| 0 <= i < j < na.len() && na[i].range.spec_intersects(na[j].range)
                implies na[i].depth != na[j].depth by {
                if j == arrows.len() {
                    assert(na[i] == arrows[i]);
                    if na[i].depth == depth {
                        assert(depth_used(arrows, range, depth as int));
                    }
                } else {
                    assert(na[i] == arrows[i] && na[j] == arrows[j]);
                }
            }
            assert forall|i: int| 0 <= i < na.len() implies (#[trigger] na[i]).depth <= md by {
                if i < arrows.len() {
                    assert(na[i] == arrows[i]);
                }
            }
            if md == depth {
                assert(na[arrows.len() as int].depth == md);
            } else {
                let k = choose|k: int| 0 <= k < arrows.len() && arrows[k].depth == md;
                assert(na[k] == arrows[k]);
            }
        }
        self.arrows.push(Arrow { range, depth, arrowtype });
    }

    pub fn max_depth(&self) -> (r: Option<u8>)
        ensures
            r == (if self@.arrows.len() == 0 { None } else { Some(self@.max_depth) }),
    {
        if self.arrows.len() == 0 {
            None
        } else {
            Some(self.max_depth)
        }
    }

    fn space_needed(&self) -> (r: u8)
        requires
            self@.arrows.len() == 0 || self@.max_depth < 255,
        ensures
            r == space_needed(self@),
    {
        match self.max_depth() {
            None => 0,
            Some(depth) => depth + 1,
        }
    }

    /// The arrows' text for line `addr`. `nudge_before` is for the lines of
    /// an address before its last one (a block's label): arrows start or end
    /// only on the last.
    pub fn render_at_addr(&self, addr: usize, nudge_before: bool) -> (s: Vec<char>)
        requires
            self@.arrows.len() == 0 || self@.max_depth < 255,
        ensures
            s@ == spec_render(self@, addr, nudge_before),
    {
        let ghost v = self@;
        let mut arrow_exit = false;
        let mut arrow_enter = false;
        let mut depths: Vec<(u8, LineType)> = Vec::new();
        let mut i: usize = 0;
        while i < self.arrows.len()
            invariant
                v == self@,
                i <= v.arrows.len(),
                depths@ == crossing(v.arrows.subrange(0, i as int), addr, nudge_before),
                arrow_exit == (!nudge_before && arrow_at(v.arrows.subrange(0, i as int), addr, true)),
                arrow_enter == (!nudge_before && arrow_at(v.arrows.subrange(0, i as int), addr, false)),
            decreases v.arrows.len() - i,
        {
            let arrow = self.arrows[i];
            let ghost pre = v.arrows.subrange(0, i as int);
            let ghost cur = v.arrows.subrange(0, i + 1);
            assert(cur.drop_last() =~= pre);
            assert(cur.last() == arrow);
            let first = arrow.range.first_addr();
            let last = arrow.range.last_addr();
            if first <= addr && addr <= last {
                let ty = if nudge_before {
                    if first == addr && last > first {
                        LineType::Blank
                    } else {
                        LineType::Through
                    }
                } else {
                    if arrow.range.start == addr {
                        arrow_exit = true;
                    }
                    if arrow.range.end == addr {
                        arrow_enter = true;
                    }
                    if addr == last {
                        LineType::Stopping
                    } else if addr == first {
                        LineType::Starting
                    } else {
                        LineType::Through
                    }
                };
                depths.push((arrow.depth, ty));
            }
            proof {
                assert forall|leaves: bool| arrow_at(cur, addr, leaves) == (arrow_at(pre, addr, leaves)
                    || (cur.last().range.lo() <= addr <= cur.last().range.hi()
                        && (if leaves { cur.last().range.start == addr } else { cur.last().range.end == addr }))) by {
                    if arrow_at(cur, addr, leaves) {
                        let j = choose|j: int| 0 <= j < cur.len() && cur[j].range.lo() <= addr <= cur[j].range.hi()
                            && (if leaves { cur[j].range.start == addr } else { cur[j].range.end == addr });
                        if j < i {
                            assert(pre[j] == cur[j]);
                        }
                    }
                    if arrow_at(pre, addr, leaves) {
                        let j = choose|j: int| 0 <= j < pre.len() && pre[j].range.lo() <= addr <= pre[j].range.hi()
                            && (if leaves { pre[j].range.start == addr } else { pre[j].range.end == addr });
                        assert(cur[j] == pre[j]);
                    }
                    if cur.last().range.lo() <= addr <= cur.last().range.hi()
                        && (if leaves { cur.last().range.start == addr } else { cur.last().range.end == addr }) {
                        assert(cur[i as int] == cur.last());
                    }
                }
            }
            i = i + 1;
        }
        assert(v.arrows.subrange(0, v.arrows.len() as int) =~= v.arrows);
        let mut out: Vec<char> = Vec::new();
        let mut draw_remaining = false;
        let space = self.space_needed();
        let mut d: u8 = space;
        let ghost entries = depths@;
        while d > 0
            invariant
                entries == depths@,
                d <= space,
                space == space_needed(v),
                out@ + cells(entries, d - 1, draw_remaining) == cells(entries, space - 1, false),
            decreases d,
        {
            let col = d - 1;
            let found = find_depth(&depths, col);
            let c = match found {
                Some(LineType::Starting) => if draw_remaining { '┬' } else { '╭' },
                Some(LineType::Stopping) => if draw_remaining { '┴' } else { '╰' },
                Some(LineType::Through) => '│',
                Some(LineType::Blank) => ' ',
                None => if draw_remaining { '─' } else { ' ' },
            };
            let ghost before = out@;
            let ghost dr = draw_remaining;
            out.push(c);
            match found {
                Some(LineType::Starting) | Some(LineType::Stopping) => {
                    draw_remaining = true;
                },
                _ => {},
            }
            assert(cells(entries, col as int, dr) == seq![c] + cells(entries, col - 1, draw_remaining));
            assert(out@ + cells(entries, col - 1, draw_remaining) =~= before + cells(entries, col as int, dr));
            d = col;
        }
        assert(cells(entries, d - 1, draw_remaining) =~= seq![]);
        assert(out@ =~= cells(entries, space - 1, false));
        let h = if arrow_enter && arrow_exit {
            '■'
        } else if arrow_enter {
            '▶'
        } else if arrow_exit {
            '─'
        } else {
            ' '
        };
        let ghost body = out@;
        out.push(h);
        out.push(' ');
        assert(out@ =~= body + seq![h, ' ']);
        out
    }
}

/// Whether `d` occurs in `v`.
fn contains_u8(v: &Vec<u8>, d: u8) -> (b: bool)
    ensures
        b == v@.contains(d),
{
    let mut i: usize = 0;
    while i < v.len()
        invariant
            i <= v@.len(),
            forall|j: int| 0 <= j < i ==> v@[j] != d,
        decreases v@.len() - i,
    {
        if v[i] == d {
            return true;
        }
        i = i + 1;
    }
    false
}

/// How the first entry at depth `d` crosses the line.
fn find_depth(entries: &Vec<(u8, LineType)>, d: u8) -> (r: Option<LineType>)
    ensures
        r == first_at_depth(entries@, d as int),
{
    let mut i: usize = 0;
    assert(entries@.subrange(0, entries@.len() as int) =~= entries@);
    while i < entries.len()
        invariant
            i <= entries@.len(),
            first_at_depth(entries@, d as int) == first_at_depth(entries@.subrange(i as int, entries@.len() as int), d as int),
        decreases entries@.len() - i,
    {
        let ghost rest = entries@.subrange(i as int, entries@.len() as int);
        assert(rest.drop_first() =~= entries@.subrange(i + 1, entries@.len() as int));
        if entries[i].0 == d {
            return Some(entries[i].1);
        }
        i = i + 1;
    }
    None
}

/// The number of decimal digits of `n`.
pub fn chars_needed(n: usize) -> (r: usize)
    ensures
        r == spec_decimal(n as nat).len(),
{
    let mut count: usize = 1;
    let mut m: usize = n;
    proof { lemma_decimal_len_le(n as nat); }
    while m >= 10
        invariant
            1 <= count,
            m >= 10 ==> n >= 10,
            spec_decimal(n as nat).len() == spec_decimal(m as nat).len() + count - 1,
            n >= 1 ==> spec_decimal(n as nat).len() <= n,
        decreases m,
    {
        assert(spec_decimal(m as nat).len() == spec_decimal((m / 10) as nat).len() + 1);
        assert(spec_decimal((m / 10) as nat).len() >= 1);
        m = m / 10;
        count = count + 1;
    }
    count
}

/// A positive number has no more digits than its value.
pub proof fn lemma_decimal_len_le(n: nat)
    ensures
        spec_decimal(n).len() >= 1,
        n >= 1 ==> spec_decimal(n).len() <= n,
    decreases n,
{
    if n >= 10 {
        lemma_decimal_len_le(n / 10);
    }
}

/// The line of the first instruction of block `k`: the lengths of the
/// blocks before it added up.
pub open spec fn block_line(lens: Seq<usize>, k: int) -> int
    decreases k,
{
    if k <= 0 || lens.len() == 0 {
        0
    } else if k > lens.len() {
        block_line(lens, lens.len() as int)
    } else {
        block_line(lens, k - 1) + lens[k - 1]
    }
}

/// Adding an arrow to arrows that are well formed, where that does not
/// abort: a fall through is left out; an arrow from a line to itself, or
/// one that finds every depth taken, aborts.
pub open spec fn spec_add_arrow(v: ArrowsView, start: int, end: int, ty: ArrowType) -> Option<ArrowsView> {
    if end > start && end - start == 1 {
        Some(v)
    } else if start == end || start < 0 || end < 0 || start > usize::MAX || end > usize::MAX {
        None
    } else {
        let range = AddressRange { start: start as usize, end: end as usize };
        let d = first_free_from(v.arrows, range, 0);
        if d >= 256 {
            None
        } else {
            Some(ArrowsView {
                arrows: v.arrows.push(Arrow { range, depth: d as u8, arrowtype: ty }),
                max_depth: if d > v.max_depth { d as u8 } else { v.max_depth },
            })
        }
    }
}

/// The arrows of the terminator of block `k` added to `v`: a jump points to
/// its target, a branch to both targets, from the block's last line.
pub open spec fn spec_block_arrows(lens: Seq<usize>, terms: Seq<GenericTerminator>, k: int, v: ArrowsView) -> Option<ArrowsView> {
    let s = block_line(lens, k);
    if s + lens[k] > usize::MAX || s + lens[k] == 0 {
        None
    } else {
        let end = s + lens[k] - 1;
        match terms[k] {
            GenericTerminator::Jump { target } => if block_line(lens, target as int) > usize::MAX {
                None
            } else {
                spec_add_arrow(v, end, block_line(lens, target as int), ArrowType::Always)
            },
            GenericTerminator::BranchTrue { target_true, target_false } => {
                if block_line(lens, target_true as int) > usize::MAX {
                    None
                } else {
                    match spec_add_arrow(v, end, block_line(lens, target_true as int), ArrowType::IfTrue) {
                        Some(v1) => if block_line(lens, target_false as int) > usize::MAX {
                            None
                        } else {
                            spec_add_arrow(v1, end, block_line(lens, target_false as int), ArrowType::IfFalse)
                        },
                        None => None,
                    }
                }
            },
            GenericTerminator::Return => Some(v),
        }
    }
}

/// The arrows of the blocks from `k` on added to `v`.
pub open spec fn spec_layout(lens: Seq<usize>, terms: Seq<GenericTerminator>, k: int, v: ArrowsView) -> Option<ArrowsView>
    decreases lens.len() - k,
{
    if k < 0 || k >= lens.len() {
        Some(v)
    } else {
        match spec_block_arrows(lens, terms, k, v) {
            Some(v1) => spec_layout(lens, terms, k + 1, v1),
            None => None,
        }
    }
}

/// Whether the lines of all blocks fit in a `usize`.
pub open spec fn lines_fit(lens: Seq<usize>) -> bool {
    block_line(lens, lens.len() as int) <= usize::MAX
}

pub(crate) proof fn lemma_block_line_mono(lens: Seq<usize>, j: int, k: int)
    requires
        0 <= j <= k,
    ensures
        0 <= block_line(lens, j) <= block_line(lens, k),
    decreases k,
{
    lemma_block_line_nonneg(lens, j);
    if k > j {
        if k > lens.len() && lens.len() > 0 {
            if j < lens.len() {
                lemma_block_line_mono(lens, j, lens.len() as int);
            } else {
                lemma_block_line_mono(lens, lens.len() as int, lens.len() as int);
            }
        } else if lens.len() > 0 {
            lemma_block_line_mono(lens, j, k - 1);
        }
    }
}

proof fn lemma_block_line_nonneg(lens: Seq<usize>, k: int)
    ensures
        block_line(lens, k) >= 0,
    decreases k,
{
    if k > 0 && lens.len() > 0 {
        if k > lens.len() {
            lemma_block_line_nonneg(lens, lens.len() as int);
        } else {
            lemma_block_line_nonneg(lens, k - 1);
        }
    }
}

/// The line of the first instruction of block `k`.
pub(crate) fn block_line_of(lens: &Vec<usize>, k: usize) -> (r: Option<usize>)
    ensures
        match r {
            Some(x) => x as int == block_line(lens@, k as int),
            None => block_line(lens@, k as int) > usize::MAX,
        },
{
    let mut sum: usize = 0;
    let mut i: usize = 0;
    proof { lemma_block_line_mono(lens@, 0, k as int); }
    while i < k && i < lens.len()
        invariant
            i <= k,
            i <= lens@.len(),
            sum == block_line(lens@, i as int),
        decreases k - i,
    {
        proof { lemma_block_line_mono(lens@, i + 1, k as int); }
        match sum.checked_add(lens[i]) {
            Some(x) => {
                sum = x;
            },
            None => {
                proof {
                    lemma_block_line_mono(lens@, i + 1, k as int);
                }
                return None;
            },
        }
        i = i + 1;
    }
    proof {
        if i < k {
            assert(i == lens@.len());
            assert(block_line(lens@, k as int) == block_line(lens@, i as int));
        }
    }
    Some(sum)
}

/// The arrows of a function whose blocks have lengths `lens` and
/// terminators `terms`; `None` where drawing them aborts.
pub fn layout_arrows(lens: &Vec<usize>, terms: &Vec<GenericTerminator>) -> (r: Option<Arrows>)
    requires
        lens@.len() == terms@.len(),
    ensures
        match spec_layout(lens@, terms@, 0, ArrowsView { arrows: seq![], max_depth: 0 }) {
            Some(v) => r matches Some(a) && a@ == v && arrows_wf(a@.arrows, a@.max_depth),
            None => r is None,
        },
{
    let mut arrows = Arrows::new();
    let mut k: usize = 0;
    while k < lens.len()
        invariant
            lens@.len() == terms@.len(),
            k <= lens@.len(),
            arrows_wf(arrows@.arrows, arrows@.max_depth),
            spec_layout(lens@, terms@, 0, ArrowsView { arrows: seq![], max_depth: 0 }) == spec_layout(lens@, terms@, k as int, arrows@),
        decreases lens@.len() - k,
    {
        let start_line = match block_line_of(lens, k) {
            Some(x) => x,
            None => return None,
        };
        let end = match start_line.checked_add(lens[k]) {
            Some(x) => match x.checked_sub(1) {
                Some(e) => e,
                None => return None,
            },
            None => return None,
        };
        match terms[k] {
            GenericTerminator::Jump { target } => {
                let t = match block_line_of(lens, target) {
                    Some(t) => t,
                    None => return None,
                };
                if !add_arrow_checked(&mut arrows, end, t, ArrowType::Always) {
                    return None;
                }
            },
            GenericTerminator::BranchTrue { target_true, target_false } => {
                let tt = match block_line_of(lens, target_true) {
                    Some(t) => t,
                    None => return None,
                };
                if !add_arrow_checked(&mut arrows, end, tt, ArrowType::IfTrue) {
                    return None;
                }
                let tf = match block_line_of(lens, target_false) {
                    Some(t) => t,
                    None => return None,
                };
                if !add_arrow_checked(&mut arrows, end, tf, ArrowType::IfFalse) {
                    return None;
                }
            },
            GenericTerminator::Return => {},
        }
        k = k + 1;
    }
    Some(arrows)
}

/// Adds an arrow where that does not abort, saying whether it did.
fn add_arrow_checked(arrows: &mut Arrows, start: usize, end: usize, ty: ArrowType) -> (ok: bool)
    requires
        arrows_wf(old(arrows)@.arrows, old(arrows)@.max_depth),
    ensures
        arrows_wf(final(arrows)@.arrows, final(arrows)@.max_depth),
        match spec_add_arrow(old(arrows)@, start as int, end as int, ty) {
            Some(v) => ok && final(arrows)@ == v,
            None => !ok,
        },
{
    if end > start && end - start == 1 {
        return true;
    }
    if start == end {
        return false;
    }
    if !arrows.has_free_depth(start, end) {
        return false;
    }
    arrows.add_arrow(start, end, ty);
    true
}

impl Arrows {
    /// Whether an arrow from `start` to `end` finds a free depth.
    pub fn has_free_depth(&self, start: usize, end: usize) -> (b: bool)
        ensures
            b == (first_free_from(self@.arrows, AddressRange { start, end }, 0) < 256),
    {
        let range = AddressRange { start, end };
        let ghost arrows = self@.arrows;
        proof { lemma_first_free(arrows, range, 0); }
        let mut depth: u16 = 0;
        while depth < 256
            invariant
                arrows == self@.arrows,
                range == (AddressRange { start, end }),
                depth <= 256,
                first_free_from(arrows, range, 0) == first_free_from(arrows, range, depth as int),
            decreases 256 - depth,
        {
            proof { lemma_first_free(arrows, range, depth as int); }
            let d8 = depth as u8;
            assert(d8 as int == depth as int);
            if !self.depth_in_use(&range, d8) {
                return true;
            }
            depth = depth + 1;
        }
        false
    }

    /// Whether an arrow meeting `range` has depth `d`.
    fn depth_in_use(&self, range: &AddressRange, d: u8) -> (b: bool)
        ensures
            b == depth_used(self@.arrows, *range, d as int),
    {
        let mut i: usize = 0;
        while i < self.arrows.len()
            invariant
                i <= self.arrows@.len(),
                forall|j: int| 0 <= j < i ==> !(self.arrows@[j].range.spec_intersects(*range) && self.arrows@[j].depth == d),
            decreases self.arrows@.len() - i,
        {
            if self.arrows[i].depth == d && self.arrows[i].range.intersects(range) {
                return true;
            }
            i = i + 1;
        }
        false
    }
}

} // verus!
