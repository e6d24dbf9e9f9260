use vstd::prelude::*;

verus! {

/// The index of a block within its function.
pub type BlockIdx = usize;

/// How control leaves a block, whatever the IL.
#[derive(Debug, Clone, Copy, PartialEq, Eq, Structural)]
pub enum GenericTerminator {
    Jump { target: BlockIdx },
    BranchTrue { target_true: BlockIdx, target_false: BlockIdx },
    Return,
}

/// What a resolver calls addresses: the symbols and the data it has names for.
pub struct ResolvedNames {
    pub symbols: Map<u32, Seq<char>>,
    pub data: Map<u32, Seq<char>>,
}

/// A function of some IL: a sequence of blocks.
pub trait TFunction<B> {
    /// The blocks, in order.
    spec fn spec_blocks(&self) -> Seq<B>;

    /// The blocks, in order.
    fn get_blocks_for_function(&self) -> (v: Vec<&B>)
        ensures
            v@.len() == self.spec_blocks().len(),
            forall|i: int| 0 <= i < v@.len() ==> *v@[i] == self.spec_blocks()[i];
}

/// A block of some IL: a named run of instructions and its terminator.
pub trait TBlock<I> {
    spec fn spec_name(&self) -> Seq<char>;

    spec fn spec_terminator(&self) -> GenericTerminator;

    spec fn spec_bounds(&self) -> Option<(usize, usize)>;

    /// The instructions, each with its address where it has one.
    spec fn spec_instructions(&self) -> Seq<(Option<usize>, I)>;

    fn get_block_name(&self) -> (s: &String)
        ensures
            s@ == self.spec_name();

    fn get_block_terminator(&self) -> (t: GenericTerminator)
        ensures
            t == self.spec_terminator();

    /// The first and last address of the block, where it has addresses.
    fn get_block_address_bounds(&self) -> (r: Option<(usize, usize)>)
        ensures
            r == self.spec_bounds();

    fn len(&self) -> (n: usize)
        ensures
            n == self.spec_instructions().len();

    fn is_empty(&self) -> (b: bool)
        ensures
            b == (self.spec_instructions().len() == 0),
    {
        self.len() == 0
    }

    /// The instructions, each with its address where it has one.
    fn get_instructions_for_block(&self) -> (v: Vec<(Option<usize>, &I)>)
        ensures
            v@.len() == self.spec_instructions().len(),
            forall|i: int| 0 <= i < v@.len() ==> (#[trigger] v@[i]).0 == self.spec_instructions()[i].0
                && *v@[i].1 == self.spec_instructions()[i].1;
}

/// Looks up the names of addresses.
pub trait AddressResolver {
    /// The names this resolver has.
    spec fn names(&self) -> ResolvedNames;

    fn resolve_symbol(&self, addr: u32) -> (r: Option<&str>)
        ensures
            match r {
                Some(s) => self.names().symbols.contains_key(addr) && s@ == self.names().symbols[addr],
                None => !self.names().symbols.contains_key(addr),
            };

    fn resolve_data(&self, addr: u32) -> (r: Option<&str>)
        ensures
            match r {
                Some(s) => self.names().data.contains_key(addr) && s@ == self.names().data[addr],
                None => !self.names().data.contains_key(addr),
            };
}

/// Text for a value, with the names that a resolver gives to the addresses
/// in it.
pub trait DisplayWithResolver {
    /// The text, given the resolver's names.
    spec fn spec_text(&self, names: ResolvedNames) -> Seq<char>;

    fn text_with_resolver<R: AddressResolver>(&self, resolver: &R) -> (s: String)
        ensures
            s@ == self.spec_text(resolver.names());
}

/// An instruction of some IL.
pub trait TInstruction: DisplayWithResolver {}

/// A value together with the resolver to write it with.
pub struct DisplayWrapper<'a, T, R> {
    inner: &'a T,
    resolver: &'a R,
}

impl<'a, T, R> DisplayWrapper<'a, T, R> {
    pub closed spec fn spec_inner(&self) -> &'a T {
        self.inner
    }

    pub closed spec fn spec_resolver(&self) -> &'a R {
        self.resolver
    }
}

impl<'a, T: DisplayWithResolver, R: AddressResolver> DisplayWrapper<'a, T, R> {
    /// The value's text.
    pub fn to_string(&self) -> (s: String)
        ensures
            s@ == self.spec_inner().spec_text(self.spec_resolver().names()),
    {
        self.inner.text_with_resolver(self.resolver)
    }
}

/// Pairs a value with the resolver to write it with.
pub fn display_with_resolver<'a, T: DisplayWithResolver, R: AddressResolver>(inner: &'a T, resolver: &'a R) -> (w: DisplayWrapper<'a, T, R>)
    ensures
        w.spec_inner() == inner,
        w.spec_resolver() == resolver,
{
    DisplayWrapper { inner, resolver }
}

} // verus!
