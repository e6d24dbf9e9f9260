use vstd::prelude::*;
use vstd::slice::slice_subrange;
use vstd::slice::slice_to_vec;
use vstd::utf8::valid_utf8;
use vstd::utf8::decode_utf8;

use crate::error::ParseError;

verus! {

/// The abstract state of a [`BinaryReader`]: the byte storage it reads from,
/// the index of its next byte in that storage, its position relative to the
/// start of its own window, and how many bytes its window still holds.
pub struct ReaderView {
    pub data: Seq<u8>,
    pub pos: int,
    pub local_position: int,
    pub remaining: int,
}

impl ReaderView {
    /// The bounds that every reader keeps.
    pub open spec fn wf(self) -> bool {
        &&& 0 <= self.pos
        &&& 0 <= self.local_position
        &&& 0 <= self.remaining
        &&& self.pos + self.remaining <= u64::MAX
        &&& self.local_position + self.remaining <= u64::MAX
    }
}

/// The outcome of a parse step: the value and the reader state after it.
pub type PResult<T> = Result<(T, ReaderView), ParseError>;

/// The reader state after `n` bytes of its window have been taken.
pub open spec fn advance(r: ReaderView, n: int) -> ReaderView {
    ReaderView {
        data: r.data,
        pos: r.pos + n,
        local_position: r.local_position + n,
        remaining: r.remaining - n,
    }
}

/// Taking `n` bytes: refused without a state change when the window holds
/// fewer than `n` bytes; otherwise the window advances by `n`, and the bytes
/// are those of the storage when the storage holds them.
pub open spec fn spec_take(r: ReaderView, n: int) -> (Result<Seq<u8>, ParseError>, ReaderView) {
    if n > r.remaining {
        (Err(ParseError::UnexpectedEof { requested: n as u64, remaining: r.remaining as u64 }), r)
    } else if r.pos + n <= r.data.len() {
        (Ok(r.data.subrange(r.pos, r.pos + n)), advance(r, n))
    } else {
        (Err(ParseError::StreamEnded), advance(r, n))
    }
}

/// `spec_take` as a parse step.
pub open spec fn spec_read_bytes(r: ReaderView, n: int) -> PResult<Seq<u8>> {
    match spec_take(r, n).0 {
        Ok(b) => Ok((b, spec_take(r, n).1)),
        Err(e) => Err(e),
    }
}

/// Big-endian value of two bytes.
pub open spec fn be16(b: Seq<u8>) -> int {
    b[0] * 0x100 + b[1]
}

/// Big-endian value of four bytes.
pub open spec fn be32(b: Seq<u8>) -> int {
    b[0] * 0x100_0000 + b[1] * 0x1_0000 + b[2] * 0x100 + b[3]
}

/// Big-endian value of eight bytes.
pub open spec fn be64(b: Seq<u8>) -> int {
    be32(b.subrange(0, 4)) * 0x1_0000_0000 + be32(b.subrange(4, 8))
}

/// Two's complement reading of an unsigned value `v` of `2^bits` values.
pub open spec fn twos(v: int, half: int) -> int {
    if v < half { v } else { v - 2 * half }
}

/// Maps the value of a parse step through `f`.
pub open spec fn pmap<A, B>(p: PResult<A>, f: spec_fn(A) -> B) -> PResult<B> {
    match p {
        Ok((a, r)) => Ok((f(a), r)),
        Err(e) => Err(e),
    }
}

/// `n` consecutive parse steps `p`, their values in order; the first error
/// ends the repetition.
pub open spec fn repeat<T>(p: spec_fn(ReaderView) -> PResult<T>, r: ReaderView, n: nat) -> PResult<Seq<T>>
    decreases n,
{
    if n == 0 {
        Ok((seq![], r))
    } else {
        match repeat(p, r, (n - 1) as nat) {
            Ok((s, r1)) => match p(r1) {
                Ok((v, r2)) => Ok((s.push(v), r2)),
                Err(e) => Err(e),
            },
            Err(e) => Err(e),
        }
    }
}

/// Once a repetition fails, every longer one fails with the same error.
pub proof fn lemma_repeat_err<T>(p: spec_fn(ReaderView) -> PResult<T>, r: ReaderView, i: nat, n: nat)
    requires
        i <= n,
        repeat(p, r, i) is Err,
    ensures
        repeat(p, r, n) == repeat(p, r, i),
    decreases n,
{
    if n > i {
        lemma_repeat_err(p, r, i, (n - 1) as nat);
    }
}

/// A parse step never gives back bytes of the window.
pub open spec fn no_growth<T>(p: spec_fn(ReaderView) -> PResult<T>) -> bool {
    forall|r: ReaderView| #[trigger] p(r) matches Ok((_, r2)) ==> (r.remaining >= 0 ==> 0 <= r2.remaining <= r.remaining)
}

/// Repeating a step that gives back no bytes gives back no bytes.
pub proof fn lemma_repeat_no_growth<T>(p: spec_fn(ReaderView) -> PResult<T>, r: ReaderView, n: nat)
    requires
        no_growth(p),
    ensures
        repeat(p, r, n) matches Ok((_, r2)) ==> (r.remaining >= 0 ==> 0 <= r2.remaining <= r.remaining),
    decreases n,
{
    if n > 0 {
        lemma_repeat_no_growth(p, r, (n - 1) as nat);
        match repeat(p, r, (n - 1) as nat) {
            Ok((_, r1)) => {
                assert(p(r1) matches Ok((_, r2)) ==> (r1.remaining >= 0 ==> 0 <= r2.remaining <= r1.remaining));
            },
            Err(_) => {},
        }
    }
}

/// Maps the value of a read of `n` bytes through `f`.
pub open spec fn spec_read_map<T>(r: ReaderView, n: int, f: spec_fn(Seq<u8>) -> T) -> PResult<T> {
    match spec_read_bytes(r, n) {
        Ok((b, r2)) => Ok((f(b), r2)),
        Err(e) => Err(e),
    }
}

pub open spec fn spec_read_u8(r: ReaderView) -> PResult<u8> {
    spec_read_map(r, 1, |b: Seq<u8>| b[0])
}

pub open spec fn spec_read_i8(r: ReaderView) -> PResult<i8> {
    spec_read_map(r, 1, |b: Seq<u8>| twos(b[0] as int, 0x80) as i8)
}

pub open spec fn spec_read_u16(r: ReaderView) -> PResult<u16> {
    spec_read_map(r, 2, |b: Seq<u8>| be16(b) as u16)
}

pub open spec fn spec_read_i16(r: ReaderView) -> PResult<i16> {
    spec_read_map(r, 2, |b: Seq<u8>| twos(be16(b), 0x8000) as i16)
}

pub open spec fn spec_read_u32(r: ReaderView) -> PResult<u32> {
    spec_read_map(r, 4, |b: Seq<u8>| be32(b) as u32)
}

pub open spec fn spec_read_i32(r: ReaderView) -> PResult<i32> {
    spec_read_map(r, 4, |b: Seq<u8>| twos(be32(b), 0x8000_0000) as i32)
}

pub open spec fn spec_read_u64(r: ReaderView) -> PResult<u64> {
    spec_read_map(r, 8, |b: Seq<u8>| be64(b) as u64)
}

pub open spec fn spec_read_i64(r: ReaderView) -> PResult<i64> {
    spec_read_map(r, 8, |b: Seq<u8>| twos(be64(b), 0x8000_0000_0000_0000) as i64)
}

/// Reading a string of `len` bytes: the bytes must decode as UTF-8.
pub open spec fn spec_new_string(r: ReaderView, len: int) -> PResult<Seq<char>> {
    match spec_read_bytes(r, len) {
        Ok((b, r2)) => if valid_utf8(b) {
            Ok((decode_utf8(b), r2))
        } else {
            Err(ParseError::InvalidUtf8)
        },
        Err(e) => Err(e),
    }
}

/// Skipping `amount` bytes: always accepted on an exhausted window, refused
/// when the window holds fewer bytes, and never dependent on the storage.
pub open spec fn spec_consume(r: ReaderView, amount: int) -> PResult<()> {
    if r.remaining == 0 {
        Ok(((), r))
    } else if amount > r.remaining {
        Err(ParseError::UnexpectedEof { requested: amount as u64, remaining: r.remaining as u64 })
    } else {
        Ok(((), advance(r, amount)))
    }
}

/// The window of `len` bytes that `mut_slice` hands out.
pub open spec fn spec_window(r: ReaderView, len: int) -> ReaderView {
    ReaderView { data: r.data, pos: r.pos, local_position: 0, remaining: len }
}

/// `String::from_utf8`: accepts exactly the valid UTF-8 byte strings and
/// then holds the characters they encode.
#[verifier::external_body]
fn string_from_utf8(bytes: Vec<u8>) -> (res: Option<String>)
    ensures
        res is Some <==> valid_utf8(bytes@),
        res matches Some(s) ==> s@ == decode_utf8(bytes@),
{
    String::from_utf8(bytes).ok()
}

/// A big-endian reader over a window of a byte storage. Windows nest: a
/// window of a window reads the same storage.
pub struct BinaryReader<'a> {
    data: &'a [u8],
    pos: u64,
    local_position: u64,
    remaining: u64,
}

impl<'a> View for BinaryReader<'a> {
    type V = ReaderView;

    closed spec fn view(&self) -> ReaderView {
        ReaderView {
            data: self.data@,
            pos: self.pos as int,
            local_position: self.local_position as int,
            remaining: self.remaining as int,
        }
    }
}

impl<'a> BinaryReader<'a> {
    #[verifier::type_invariant]
    closed spec fn inv(self) -> bool {
        &&& self.pos + self.remaining <= u64::MAX
        &&& self.local_position + self.remaining <= u64::MAX
    }

    /// Holds of every reader: its state keeps the bounds of `ReaderView::wf`.
    pub fn well_formed(&self) -> (b: bool)
        ensures
            b,
            self@.wf(),
    {
        proof { use_type_invariant(self); }
        true
    }

    /// A reader whose window is the first `len` bytes of `storage`.
    pub fn new(storage: &'a [u8], len: u64) -> (r: BinaryReader<'a>)
        ensures
            r@ == (ReaderView { data: storage@, pos: 0, local_position: 0, remaining: len as int }),
    {
        BinaryReader { data: storage, pos: 0, local_position: 0, remaining: len }
    }

    /// Splits off the next `len` bytes of the window as a window of its own;
    /// this reader continues after them.
    pub fn mut_slice(&mut self, len: u64) -> (w: BinaryReader<'a>)
        requires
            len <= old(self)@.remaining,
        ensures
            w@ == spec_window(old(self)@, len as int),
            final(self)@ == advance(old(self)@, len as int),
    {
        proof { use_type_invariant(&*self); }
        self.remaining = self.remaining - len;
        let start = self.pos;
        self.pos = self.pos + len;
        self.local_position = self.local_position + len;
        BinaryReader { data: self.data, pos: start, local_position: 0, remaining: len }
    }

    pub fn get_local_position(&self) -> (p: u64)
        ensures
            p == self@.local_position,
    {
        self.local_position
    }

    pub fn get_remaining(&self) -> (n: u64)
        ensures
            n == self@.remaining,
    {
        self.remaining
    }

    pub fn has_remaining(&mut self) -> (b: bool)
        ensures
            b == (old(self)@.remaining > 0),
            *final(self) == *old(self),
    {
        self.remaining > 0
    }

    /// Whether `count` more bytes fit in the window.
    pub fn has_enough(&mut self, count: u64) -> (res: Result<(), ParseError>)
        ensures
            *final(self) == *old(self),
            res is Ok <==> count <= old(self)@.remaining,
            res matches Err(e) ==> e == (ParseError::UnexpectedEof {
                requested: count,
                remaining: old(self)@.remaining as u64,
            }),
    {
        if count > self.remaining {
            Err(ParseError::UnexpectedEof { requested: count, remaining: self.remaining })
        } else {
            Ok(())
        }
    }

    /// Takes the next `n` bytes of the window, as a slice of the storage.
    fn take(&mut self, n: u64) -> (res: Result<&'a [u8], ParseError>)
        ensures
            final(self)@ == spec_take(old(self)@, n as int).1,
            match spec_take(old(self)@, n as int).0 {
                Ok(b) => res matches Ok(s) && s@ == b,
                Err(e) => res == Err::<&'a [u8], ParseError>(e),
            },
    {
        proof { use_type_invariant(&*self); }
        self.has_enough(n)?;
        let start = self.pos;
        self.remaining = self.remaining - n;
        self.pos = self.pos + n;
        self.local_position = self.local_position + n;
        let avail = self.data.len() as u64;
        if start + n <= avail {
            Ok(slice_subrange(self.data, start as usize, (start + n) as usize))
        } else {
            Err(ParseError::StreamEnded)
        }
    }

    pub fn read_n_bytes(&mut self, n: u64) -> (res: Result<Vec<u8>, ParseError>)
        ensures
            final(self)@ == spec_take(old(self)@, n as int).1,
            match spec_take(old(self)@, n as int).0 {
                Ok(b) => res matches Ok(v) && v@ == b,
                Err(e) => res == Err::<Vec<u8>, ParseError>(e),
            },
    {
        let s = self.take(n)?;
        Ok(slice_to_vec(s))
    }

    pub fn new_string(&mut self, len: u64) -> (res: Result<String, ParseError>)
        ensures
            final(self)@ == spec_take(old(self)@, len as int).1,
            match spec_new_string(old(self)@, len as int) {
                Ok((c, _)) => res matches Ok(s) && s@ == c,
                Err(e) => res == Err::<String, ParseError>(e),
            },
    {
        let bytes = self.read_n_bytes(len)?;
        match string_from_utf8(bytes) {
            Some(s) => Ok(s),
            None => Err(ParseError::InvalidUtf8),
        }
    }

    pub fn read_bytes<const N: usize>(&mut self) -> (res: Result<[u8; N], ParseError>)
        ensures
            final(self)@ == spec_take(old(self)@, N as int).1,
            match spec_take(old(self)@, N as int).0 {
                Ok(b) => res matches Ok(a) && a@ == b,
                Err(e) => res == Err::<[u8; N], ParseError>(e),
            },
    {
        let s = self.take(N as u64)?;
        let mut buffer = [0u8; N];
        let mut i: usize = 0;
        while i < N
            invariant
                s@.len() == N,
                i <= N,
                forall|j: int| 0 <= j < i ==> buffer@[j] == s@[j],
            decreases N - i,
        {
            buffer[i] = s[i];
            i = i + 1;
        }
        assert(buffer@ =~= s@);
        Ok(buffer)
    }

    pub fn read_u8(&mut self) -> (res: Result<u8, ParseError>)
        ensures
            final(self)@ == spec_take(old(self)@, 1).1,
            match spec_read_u8(old(self)@) {
                Ok((v, _)) => res == Ok::<u8, ParseError>(v),
                Err(e) => res == Err::<u8, ParseError>(e),
            },
    {
        let s = self.take(1)?;
        Ok(s[0])
    }

    pub fn read_i8(&mut self) -> (res: Result<i8, ParseError>)
        ensures
            final(self)@ == spec_take(old(self)@, 1).1,
            match spec_read_i8(old(self)@) {
                Ok((v, _)) => res == Ok::<i8, ParseError>(v),
                Err(e) => res == Err::<i8, ParseError>(e),
            },
    {
        let s = self.take(1)?;
        let b = s[0];
        if b < 0x80 {
            Ok(b as i8)
        } else {
            Ok(((b - 0x80) as i8) - 0x7f - 1)
        }
    }

    pub fn read_u16(&mut self) -> (res: Result<u16, ParseError>)
        ensures
            final(self)@ == spec_take(old(self)@, 2).1,
            match spec_read_u16(old(self)@) {
                Ok((v, _)) => res == Ok::<u16, ParseError>(v),
                Err(e) => res == Err::<u16, ParseError>(e),
            },
    {
        let s = self.take(2)?;
        Ok((s[0] as u16) * 0x100 + (s[1] as u16))
    }

    pub fn read_i16(&mut self) -> (res: Result<i16, ParseError>)
        ensures
            final(self)@ == spec_take(old(self)@, 2).1,
            match spec_read_i16(old(self)@) {
                Ok((v, _)) => res == Ok::<i16, ParseError>(v),
                Err(e) => res == Err::<i16, ParseError>(e),
            },
    {
        let s = self.take(2)?;
        let u = (s[0] as u16) * 0x100 + (s[1] as u16);
        if u < 0x8000 {
            Ok(u as i16)
        } else {
            Ok(((u - 0x8000) as i16) - 0x7fff - 1)
        }
    }

    pub fn read_u32(&mut self) -> (res: Result<u32, ParseError>)
        ensures
            final(self)@ == spec_take(old(self)@, 4).1,
            match spec_read_u32(old(self)@) {
                Ok((v, _)) => res == Ok::<u32, ParseError>(v),
                Err(e) => res == Err::<u32, ParseError>(e),
            },
    {
        let s = self.take(4)?;
        Ok(be32_exec(s[0], s[1], s[2], s[3]))
    }

    pub fn read_i32(&mut self) -> (res: Result<i32, ParseError>)
        ensures
            final(self)@ == spec_take(old(self)@, 4).1,
            match spec_read_i32(old(self)@) {
                Ok((v, _)) => res == Ok::<i32, ParseError>(v),
                Err(e) => res == Err::<i32, ParseError>(e),
            },
    {
        let s = self.take(4)?;
        let u = be32_exec(s[0], s[1], s[2], s[3]);
        Ok(u32_to_i32(u))
    }

    pub fn read_u64(&mut self) -> (res: Result<u64, ParseError>)
        ensures
            final(self)@ == spec_take(old(self)@, 8).1,
            match spec_read_u64(old(self)@) {
                Ok((v, _)) => res == Ok::<u64, ParseError>(v),
                Err(e) => res == Err::<u64, ParseError>(e),
            },
    {
        let s = self.take(8)?;
        let hi = be32_exec(s[0], s[1], s[2], s[3]) as u64;
        let lo = be32_exec(s[4], s[5], s[6], s[7]) as u64;
        assert(s@.subrange(0, 4) =~= seq![s@[0], s@[1], s@[2], s@[3]]);
        assert(s@.subrange(4, 8) =~= seq![s@[4], s@[5], s@[6], s@[7]]);
        Ok(hi * 0x1_0000_0000 + lo)
    }

    pub fn read_i64(&mut self) -> (res: Result<i64, ParseError>)
        ensures
            final(self)@ == spec_take(old(self)@, 8).1,
            match spec_read_i64(old(self)@) {
                Ok((v, _)) => res == Ok::<i64, ParseError>(v),
                Err(e) => res == Err::<i64, ParseError>(e),
            },
    {
        let u = self.read_u64()?;
        if u < 0x8000_0000_0000_0000 {
            Ok(u as i64)
        } else {
            Ok(((u - 0x8000_0000_0000_0000) as i64) - 0x7fff_ffff_ffff_ffff - 1)
        }
    }

    /// Skips `amount` bytes of the window.
    pub fn consume(&mut self, amount: u64) -> (res: Result<(), ParseError>)
        ensures
            match spec_consume(old(self)@, amount as int) {
                Ok((_, r)) => res is Ok && final(self)@ == r,
                Err(e) => res == Err::<(), ParseError>(e) && final(self)@ == old(self)@,
            },
    {
        proof { use_type_invariant(&*self); }
        if self.remaining == 0 {
            return Ok(());
        }
        self.has_enough(amount)?;
        self.remaining = self.remaining - amount;
        self.pos = self.pos + amount;
        self.local_position = self.local_position + amount;
        Ok(())
    }
}

/// The 64-bit pattern of a sign-extended 32-bit value.
pub open spec fn i32_as_u64(v: i32) -> int {
    if v < 0 {
        v + 0x1_0000_0000_0000_0000
    } else {
        v as int
    }
}

/// Sign-extends a 32-bit value to a 64-bit pattern.
pub fn i32_to_u64(v: i32) -> (r: u64)
    ensures
        r == i32_as_u64(v),
{
    if v < 0 {
        let m = (-(v as i64) - 1) as u64;
        u64::MAX - m
    } else {
        v as u64
    }
}

/// Big-endian value of four bytes.
fn be32_exec(b0: u8, b1: u8, b2: u8, b3: u8) -> (v: u32)
    ensures
        v == be32(seq![b0, b1, b2, b3]),
{
    (b0 as u32) * 0x100_0000 + (b1 as u32) * 0x1_0000 + (b2 as u32) * 0x100 + (b3 as u32)
}

/// Two's complement reading of a 32-bit pattern.
pub fn u32_to_i32(u: u32) -> (v: i32)
    ensures
        v == twos(u as int, 0x8000_0000),
{
    if u < 0x8000_0000 {
        u as i32
    } else {
        ((u - 0x8000_0000) as i32) - 0x7fff_ffff - 1
    }
}

/// A window reads what its parent would read at the same place, as far as
/// the window reaches; after the window, the parent goes on where the
/// window ends.
pub proof fn lemma_window_reads_parent(r: ReaderView, len: int, k: int)
    requires
        0 <= k <= len <= r.remaining,
    ensures
        spec_take(spec_window(r, len), k).0 == spec_take(r, k).0,
        spec_take(spec_window(r, len), k).1.pos == spec_take(r, k).1.pos,
        advance(r, len).pos == spec_window(r, len).pos + len,
{
}

/// Whether reader state `r1` may follow `r`: the position plus what
/// remains (the window's declared length) stays the same, and the position
/// never goes back.
pub open spec fn keeps_window(r: ReaderView, r1: ReaderView) -> bool {
    &&& r1.local_position + r1.remaining == r.local_position + r.remaining
    &&& r.local_position <= r1.local_position
    &&& 0 <= r1.remaining
}

/// Every step a reader takes keeps its window: a take of any length, read
/// or failed; a consume of any amount that succeeds (a failed one leaves the
/// reader as it was); skipping a window of at most what remains. A reader
/// made with `new(s, len)` starts at position 0 with `len` remaining, so
/// over any sequence of calls its position plus what remains is `len`, and
/// its position never decreases.
pub proof fn lemma_reader_steps_keep_window(r: ReaderView, n: int)
    requires
        0 <= r.remaining,
        0 <= n,
    ensures
        keeps_window(r, r),
        keeps_window(r, spec_take(r, n).1),
        spec_consume(r, n) matches Ok((_, r1)) ==> keeps_window(r, r1),
        n <= r.remaining ==> keeps_window(r, advance(r, n)),
{
}

/// Steps that each keep the window keep it together.
pub proof fn lemma_keeps_window_chain(a: ReaderView, b: ReaderView, c: ReaderView)
    requires
        keeps_window(a, b),
        keeps_window(b, c),
    ensures
        keeps_window(a, c),
{
}

} // verus!
