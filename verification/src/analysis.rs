//! The functions of a program: found through its classes, cut out of its
//! code, and analysed into intermediate languages on demand.
use vstd::prelude::*;
use std::collections::{BTreeMap, HashMap};
use std::collections::HashSet;

use crate::addressed_container::{container_wf, spec_dense_index, AddressedContainer, ContainerView};
use crate::constants::{CodeAddress, DataAddress, SymbolAddress};
use crate::disassembler::{lemma_dense_index_found, spec_make_blocks, BlockView, DisassemblyError, DisassemblyFunction};
use crate::opcodes::Opcode;
use crate::sections::data::{data_view, ClassTypes, DataData, DataEntryTypes, DataEntryView, Field, FieldValue};
use crate::parser::{first_of, ProgramSections, SectionTag};
use crate::sections::symbols::{symbols_view, SymbolData};
use crate::sections::{SectionKindView, SectionView};
use crate::ordered_set::{deref_pairs, map_insert, sorted_entry_refs};
use crate::sorted_table::{keys_increasing, lemma_is_sorted_pairs, pairs_map, pairs_view, sorted_pairs};
use crate::text::{parse_u32, spec_parse_u32, split_words, words_of};
use crate::traits::ResolvedNames;
use crate::sourcedata::SourceData;
use vstd::std_specs::hash::spec_hash_map_iter;
use vstd::std_specs::iter::IteratorSpec;
use crate::ssa::{spec_ssa, try_perform_ssa_function, SSABlockView, SSAError, SSAFunction};

verus! {

broadcast use vstd::std_specs::hash::group_hash_axioms;

/// A failure of an analysis that another analysis depends on.
#[derive(Debug, PartialEq, Eq, Clone, Copy, Structural)]
pub enum ErrorUnion {
    Disassembler(DisassemblyError),
    SSA(SSAError),
}

/// Why an intermediate language could not be had: its own analysis failed,
/// or one it depends on did.
#[derive(Debug, PartialEq, Eq, Clone, Copy, Structural)]
pub enum AnalysisError<F> {
    Failure(F),
    DependencyFailure(ErrorUnion),
}

/// The intermediate languages a function can be analysed into.
#[derive(Clone, Copy, Debug, PartialEq, Eq, Structural)]
pub enum ILType {
    Disassembly,
    SSA,
}

impl ILType {
    /// Every intermediate language, in order of dependency.
    pub fn all() -> (v: Vec<ILType>)
        ensures
            v@ == seq![ILType::Disassembly, ILType::SSA],
    {
        vec![ILType::Disassembly, ILType::SSA]
    }

    pub open spec fn spec_name(self) -> Seq<char> {
        match self {
            ILType::Disassembly => "Disassembly"@,
            ILType::SSA => "SSA"@,
        }
    }

    /// The language's name.
    pub fn to_string(&self) -> (s: String)
        ensures
            s@ == self.spec_name(),
    {
        match self {
            ILType::Disassembly => String::from_str("Disassembly"),
            ILType::SSA => String::from_str("SSA"),
        }
    }
}

/// Why the functions of a program could not be found.
#[derive(Debug, PartialEq, Eq, Clone, Copy, Structural)]
pub enum McdError {
    /// The program has no data section.
    MissingDataSection,
    /// The program has no code section.
    MissingCodeSection,
    /// A class refers to a data entry that does not exist.
    MissingDataEntry(DataAddress),
    /// A method's address is not the address of an instruction.
    MissingMethodCode(CodeAddress),
    /// Classes contain one another in a cycle, so the search never ends.
    CyclicData,
}

/// A function found through the classes: its argument count and the
/// symbols of the fields on the way to it.
pub struct Stub {
    pub arg_count: usize,
    pub symbols: Vec<SymbolAddress>,
}

pub struct StubView {
    pub arg_count: usize,
    pub symbols: Seq<SymbolAddress>,
}

impl View for Stub {
    type V = StubView;

    open spec fn view(&self) -> StubView {
        StubView { arg_count: self.arg_count, symbols: self.symbols@ }
    }
}

/// The argument count that a function's first instruction declares.
pub open spec fn arg_count_of(op: Opcode) -> usize {
    match op {
        Opcode::ARGC(count) => count,
        Opcode::ARGCINCSP(count, _) => count,
        _ => 0,
    }
}

/// The fields of the class at `id`, if that entry is a class.
pub open spec fn class_fields(data: Map<u32, DataEntryView>, id: u32) -> Seq<Field> {
    if data.contains_key(id) && data[id] is Class {
        data[id]->Class_0.fields
    } else {
        seq![]
    }
}

/// The search through the class at `id`, reached through the fields
/// `ancestors`, adding to `acc`. `fuel` bounds the depth: deeper than there
/// are entries, the classes contain one another in a cycle.
pub open spec fn spec_find_inner(
    data: Map<u32, DataEntryView>,
    code: ContainerView<Opcode>,
    id: DataAddress,
    ancestors: Seq<SymbolAddress>,
    acc: Map<u32, StubView>,
    fuel: nat,
) -> Result<Map<u32, StubView>, McdError>
    decreases fuel, class_fields(data, id.0).len() + 1,
{
    if !data.contains_key(id.0) {
        Err(McdError::MissingDataEntry(id))
    } else if fuel == 0 {
        Err(McdError::CyclicData)
    } else {
        match data[id.0] {
            DataEntryView::Class(c) => spec_fields(data, code, id, c.extends_offset, c.fields, 0, ancestors, acc, fuel),
            _ => Ok(acc),
        }
    }
}

/// The search through the fields of a class from position `i` on: a method
/// is recorded under its address, a class or module that the class does
/// not extend is searched in turn.
pub open spec fn spec_fields(
    data: Map<u32, DataEntryView>,
    code: ContainerView<Opcode>,
    id: DataAddress,
    extends: Option<DataAddress>,
    fields: Seq<Field>,
    i: int,
    ancestors: Seq<SymbolAddress>,
    acc: Map<u32, StubView>,
    fuel: nat,
) -> Result<Map<u32, StubView>, McdError>
    decreases fuel, fields.len() - i,
{
    if i < 0 || i >= fields.len() {
        Ok(acc)
    } else {
        let f = fields[i];
        let path = ancestors.push(f.symbol);
        let r: Result<Map<u32, StubView>, McdError> = match f.value {
            FieldValue::Method(ca) => match spec_dense_index(code.addrs, ca.0 as usize) {
                None => Err(McdError::MissingMethodCode(ca)),
                Some(k) => Ok(acc.insert(ca.0, StubView { arg_count: arg_count_of(code.items[k as int]), symbols: path })),
            },
            FieldValue::Class(ClassTypes::Data(a)) | FieldValue::Module(a) => {
                if extends == Some(a) {
                    Ok(acc)
                } else if fuel == 0 {
                    Err(McdError::CyclicData)
                } else {
                    spec_find_inner(data, code, a, path, acc, (fuel - 1) as nat)
                }
            },
            _ => Ok(acc),
        };
        match r {
            Err(e) => Err(e),
            Ok(acc2) => spec_fields(data, code, id, extends, fields, i + 1, ancestors, acc2, fuel),
        }
    }
}

/// The functions reachable from the class at data address 0, by code
/// address.
pub open spec fn spec_find(data: Map<u32, DataEntryView>, code: ContainerView<Opcode>) -> Result<Map<u32, StubView>, McdError> {
    spec_find_inner(data, code, DataAddress(0), seq![], Map::empty(), data.len())
}

/// Searches the class at `id` and what it contains.
fn class_recursive_function_find_inner(
    id: DataAddress,
    results: &mut BTreeMap<u32, Stub>,
    ancestors: &mut Vec<SymbolAddress>,
    data_section: &DataData,
    code_section: &AddressedContainer<Opcode>,
    fuel: u64,
) -> (r: Result<(), McdError>)
    ensures
        match spec_find_inner(data_view(data_section@), code_section@, id, old(ancestors)@, stubs_map(old(results)@), fuel as nat) {
            Ok(m) => r is Ok && stubs_map(final(results)@) == m
                && final(ancestors)@ == old(ancestors)@,
            Err(e) => r == Err::<(), McdError>(e),
        },
    decreases fuel,
{
    let ghost data = data_view(data_section@);
    let ghost code = code_section@;
    let entry = match data_section.get(&id.0) {
        Some(e) => e,
        None => return Err(McdError::MissingDataEntry(id)),
    };
    if fuel == 0 {
        return Err(McdError::CyclicData);
    }
    let class = match entry {
        DataEntryTypes::Class(c) => c,
        _ => return Ok(()),
    };
    assert(data[id.0] == DataEntryView::Class(class@));
    let extends = class.extends_offset;
    let ghost anc0 = ancestors@;
    let ghost acc0 = stubs_map(results@);
    assert(spec_find_inner(data, code, id, anc0, acc0, fuel as nat)
        == spec_fields(data, code, id, extends, class@.fields, 0, anc0, acc0, fuel as nat));
    let mut i: usize = 0;
    while i < class.fields.len()
        invariant
            data == data_view(data_section@),
            code == code_section@,
            fuel > 0,
            extends == class@.extends_offset,
            i <= class@.fields.len(),
            ancestors@ == anc0,
            anc0 == old(ancestors)@,
            acc0 == stubs_map(old(results)@),
            spec_find_inner(data, code, id, anc0, acc0, fuel as nat)
                == spec_fields(data, code, id, extends, class@.fields, 0, anc0, acc0, fuel as nat),
            spec_fields(data, code, id, extends, class@.fields, 0, anc0, acc0, fuel as nat)
                == spec_fields(data, code, id, extends, class@.fields, i as int, anc0, stubs_map(results@), fuel as nat),
        decreases class@.fields.len() - i,
    {
        let field = class.fields[i];
        let ghost acc = stubs_map(results@);
        ancestors.push(field.symbol);
        let ghost path = ancestors@;
        match field.value {
            FieldValue::Method(code_address) => {
                let first = match code_section.item_at_address(code_address.0 as usize) {
                    Some(op) => op,
                    None => {
                        assert(spec_fields(data, code, id, extends, class@.fields, i as int, anc0, acc, fuel as nat)
                            == Err::<Map<u32, StubView>, McdError>(McdError::MissingMethodCode(code_address)));
                        return Err(McdError::MissingMethodCode(code_address));
                    },
                };
                let count = match *first {
                    Opcode::ARGC(count) => count,
                    Opcode::ARGCINCSP(count, _) => count,
                    _ => 0,
                };
                let symbols = ancestors.clone();
                assert(symbols@ =~= path);
                let stub = Stub { arg_count: count, symbols };
                let ghost sv = stub@;
                map_insert(results, code_address.0, stub);
                assert(stubs_map(results@) =~= acc.insert(code_address.0, sv));
            },
            FieldValue::Class(ClassTypes::Data(section_addr)) | FieldValue::Module(section_addr) => {
                let is_extends = match extends {
                    Some(e) => e.0 == section_addr.0,
                    None => false,
                };
                if !is_extends {
                    let r = class_recursive_function_find_inner(section_addr, results, ancestors, data_section, code_section, fuel - 1);
                    if let Err(e) = r {
                        return Err(e);
                    }
                }
            },
            _ => {},
        }
        let ghost before_pop = ancestors@;
        ancestors.pop();
        assert(ancestors@ =~= anc0);
        i = i + 1;
    }
    Ok(())
}

/// The functions found so far, by code address, as views.
pub open spec fn stubs_map(m: Map<u32, Stub>) -> Map<u32, StubView> {
    m.map_values(|s: Stub| s@)
}

proof fn lemma_pairs_map_view(d: Seq<(u32, Stub)>)
    ensures
        pairs_map(pairs_view(d)) == stubs_map(pairs_map(d)),
    decreases d.len(),
{
    if d.len() > 0 {
        lemma_pairs_map_view(d.drop_last());
        assert(pairs_view(d).drop_last() =~= pairs_view(d.drop_last()));
    }
    assert(pairs_map(pairs_view(d)) =~= stubs_map(pairs_map(d)));
}

/// The functions reachable from the class at data address 0, as a list
/// ordered by code address.
fn class_recursive_function_find(data_section: &DataData, code_section: &AddressedContainer<Opcode>) -> (r: Result<Vec<(u32, Stub)>, McdError>)
    ensures
        match spec_find(data_view(data_section@), code_section@) {
            Ok(m) => r matches Ok(v) && keys_increasing(pairs_view(v@)) && pairs_map(pairs_view(v@)) == m,
            Err(e) => r == Err::<Vec<(u32, Stub)>, McdError>(e),
        },
{
    let mut results: BTreeMap<u32, Stub> = BTreeMap::new();
    let mut temp_traverse: Vec<SymbolAddress> = Vec::new();
    assert(stubs_map(results@) =~= Map::<u32, StubView>::empty());
    assert(temp_traverse@ =~= seq![]);
    let fuel = data_section.len() as u64;
    assert(data_view(data_section@).dom() =~= data_section@.dom());
    assert(data_view(data_section@).len() == data_section@.len());
    class_recursive_function_find_inner(DataAddress::new_from_local(0), &mut results, &mut temp_traverse, data_section, code_section, fuel)?;
    let refs = sorted_entry_refs(&results);
    let ghost d = deref_pairs(refs@);
    let mut out: Vec<(u32, Stub)> = Vec::new();
    let mut i: usize = 0;
    while i < refs.len()
        invariant
            d == deref_pairs(refs@),
            i <= refs@.len(),
            pairs_view(out@) == pairs_view(d).subrange(0, i as int),
        decreases refs@.len() - i,
    {
        let (k, s) = refs[i];
        let copy = Stub { arg_count: s.arg_count, symbols: s.symbols.clone() };
        assert(copy.symbols@ =~= s.symbols@);
        let ghost before = pairs_view(out@);
        out.push((k, copy));
        assert(pairs_view(out@) =~= before.push((k, copy@)));
        assert(pairs_view(out@) =~= pairs_view(d).subrange(0, i + 1));
        i = i + 1;
    }
    assert(pairs_view(out@) =~= pairs_view(d));
    proof {
        lemma_pairs_map_view(d);
        assert forall|a: int, b: int| 0 <= a < b < pairs_view(out@).len() implies pairs_view(out@)[a].0 < pairs_view(out@)[b].0 by {
            assert(d[a].0 < d[b].0);
        }
    }
    Ok(out)
}

/// The status of an intermediate language of a function.
pub enum OptionalIL<T, E> {
    NotAnalyzed,
    Ready(T),
    Failure(E),
}

impl<T, E> Default for OptionalIL<T, E> {
    fn default() -> (r: OptionalIL<T, E>)
        ensures
            r is NotAnalyzed,
    {
        OptionalIL::NotAnalyzed
    }
}

impl<T, E> OptionalIL<T, E> {
    /// The analysed form; there must be one.
    pub fn unwrap(&self) -> (r: &T)
        requires
            self is Ready,
        ensures
            *r == self->Ready_0,
    {
        match self {
            OptionalIL::Ready(x) => x,
            _ => vstd::pervasive::unreached(),
        }
    }
}

/// `Failed: ` and the text of the failure.
fn failure_text(reason: String) -> (s: String)
    ensures
        s@ == "Failed: "@ + reason@,
{
    let mut s = String::from_str("Failed: ");
    s.append(reason.as_str());
    s
}

/// The status text of an intermediate language: not analysed, analysed,
/// or the failure.
pub open spec fn status_text<T>(state: Option<Result<T, Seq<char>>>) -> Seq<char> {
    match state {
        None => "Not Analyzed"@,
        Some(Ok(_)) => "OK"@,
        Some(Err(t)) => "Failed: "@ + t,
    }
}

/// A function of the program: its code, and the intermediate languages it
/// has been analysed into so far.
pub struct Function {
    name: Vec<SymbolAddress>,
    arg_count: usize,
    container: AddressedContainer<Opcode>,
    sourcedata: SourceData,
    disassembly: OptionalIL<DisassemblyFunction, DisassemblyError>,
    ssa: OptionalIL<SSAFunction, SSAError>,
}

impl Function {
    /// The symbols of the fields through which the function was found.
    pub closed spec fn spec_name(&self) -> Seq<SymbolAddress> {
        self.name@
    }

    pub closed spec fn spec_arg_count(&self) -> usize {
        self.arg_count
    }

    /// The function's code.
    pub closed spec fn spec_code(&self) -> ContainerView<Opcode> {
        self.container@
    }

    /// The disassembly so far: `None` before it is analysed.
    pub closed spec fn spec_disassembly(&self) -> Option<Result<Seq<BlockView>, DisassemblyError>> {
        match self.disassembly {
            OptionalIL::NotAnalyzed => None,
            OptionalIL::Ready(d) => Some(Ok(d@)),
            OptionalIL::Failure(e) => Some(Err(e)),
        }
    }

    /// The SSA form so far: `None` before it is analysed.
    pub closed spec fn spec_ssa_state(&self) -> Option<Result<Seq<SSABlockView>, SSAError>> {
        match self.ssa {
            OptionalIL::NotAnalyzed => None,
            OptionalIL::Ready(f) => Some(Ok(f@)),
            OptionalIL::Failure(e) => Some(Err(e)),
        }
    }

    /// Every intermediate language held is what its analysis gives: the
    /// disassembly of the code, and the SSA form of that disassembly.
    #[verifier::type_invariant]
    closed spec fn analyses_invariant(self) -> bool {
        &&& self.sourcedata.file is None && self.sourcedata.bounds is None
        &&& (self.spec_disassembly() matches Some(d) ==> d == spec_make_blocks(self.container@))
        &&& (self.spec_ssa_state() matches Some(s) ==> self.spec_disassembly() matches Some(Ok(bs)) && s == spec_ssa(bs))
    }

    /// Whatever has been analysed of a function is what its analysis gives:
    /// the disassembly of its code, and the SSA form of that disassembly.
    pub fn analyses_hold(&self)
        ensures
            self.spec_disassembly() matches Some(d) ==> d == spec_make_blocks(self.spec_code()),
            self.spec_ssa_state() matches Some(s) ==> self.spec_disassembly() matches Some(Ok(bs)) && s == spec_ssa(bs),
    {
        proof { use_type_invariant(self); }
    }

    fn new(name: Vec<SymbolAddress>, arg_count: usize, container: AddressedContainer<Opcode>) -> (f: Function)
        ensures
            f.spec_name() == name@,
            f.spec_arg_count() == arg_count,
            f.spec_code() == container@,
            f.spec_disassembly() is None,
            f.spec_ssa_state() is None,
    {
        Function {
            name,
            arg_count,
            container,
            sourcedata: SourceData::default(),
            disassembly: OptionalIL::default(),
            ssa: OptionalIL::default(),
        }
    }

    pub fn get_start_address(&self) -> (r: Option<usize>)
        ensures
            r == (if self.spec_code().addrs.len() == 0 { None } else { Some(self.spec_code().addrs[0]) }),
    {
        self.container.start_addr()
    }

    pub fn get_name(&self) -> (r: &Vec<SymbolAddress>)
        ensures
            r@ == self.spec_name(),
    {
        &self.name
    }

    pub fn get_arg_count(&self) -> (r: usize)
        ensures
            r == self.spec_arg_count(),
    {
        self.arg_count
    }

    pub fn get_source_data(&self) -> (r: &SourceData)
        ensures
            r.file is None && r.bounds is None,
    {
        proof { use_type_invariant(self); }
        &self.sourcedata
    }

    /// The status of an intermediate language: "Not Analyzed", "OK", or
    /// "Failed: " and the failure.
    pub fn get_il_status(&self, il_type: ILType) -> (s: String)
        ensures
            s@ == (match il_type {
                ILType::Disassembly => status_text(match self.spec_disassembly() {
                    None => None,
                    Some(Ok(_)) => Some(Ok(())),
                    Some(Err(e)) => Some(Err(e.spec_debug_text())),
                }),
                ILType::SSA => status_text(match self.spec_ssa_state() {
                    None => None,
                    Some(Ok(_)) => Some(Ok(())),
                    Some(Err(e)) => Some(Err(e.spec_debug_text())),
                }),
            }),
    {
        match il_type {
            ILType::Disassembly => match &self.disassembly {
                OptionalIL::NotAnalyzed => String::from_str("Not Analyzed"),
                OptionalIL::Ready(_) => String::from_str("OK"),
                OptionalIL::Failure(e) => failure_text(e.debug_text()),
            },
            ILType::SSA => match &self.ssa {
                OptionalIL::NotAnalyzed => String::from_str("Not Analyzed"),
                OptionalIL::Ready(_) => String::from_str("OK"),
                OptionalIL::Failure(e) => failure_text(e.debug_text()),
            },
        }
    }

    fn ensure_disassembly_analyzed(&mut self)
        ensures
            final(self).spec_disassembly() == Some(spec_make_blocks(old(self).spec_code())),
            final(self).spec_ssa_state() == old(self).spec_ssa_state(),
            final(self).spec_code() == old(self).spec_code(),
            final(self).spec_name() == old(self).spec_name(),
            final(self).spec_arg_count() == old(self).spec_arg_count(),
    {
        proof { use_type_invariant(&*self); }
        if let OptionalIL::NotAnalyzed = &self.disassembly {
            let result = DisassemblyFunction::try_disassemble(&self.container);
            let new_state = match result {
                Ok(dis) => OptionalIL::Ready(dis),
                Err(e) => OptionalIL::Failure(e),
            };
            self.disassembly = new_state;
        }
    }

    /// The disassembly of the function, analysed on first use.
    pub fn with_disassembly(&mut self) -> (r: Result<&DisassemblyFunction, AnalysisError<DisassemblyError>>)
        ensures
            match spec_make_blocks(old(self).spec_code()) {
                Ok(bs) => r matches Ok(d) && d@ == bs,
                Err(e) => r == Err::<&DisassemblyFunction, AnalysisError<DisassemblyError>>(AnalysisError::Failure(e)),
            },
            final(self).spec_disassembly() == Some(spec_make_blocks(old(self).spec_code())),
            final(self).spec_ssa_state() == old(self).spec_ssa_state(),
            final(self).spec_code() == old(self).spec_code(),
            final(self).spec_name() == old(self).spec_name(),
            final(self).spec_arg_count() == old(self).spec_arg_count(),
    {
        self.ensure_disassembly_analyzed();
        match &self.disassembly {
            OptionalIL::Ready(dis) => Ok(dis),
            OptionalIL::Failure(reason) => Err(AnalysisError::Failure(*reason)),
            OptionalIL::NotAnalyzed => {
                proof { assert(false); }
                Err(AnalysisError::Failure(DisassemblyError::MalformedControlFlow))
            },
        }
    }

    fn ensure_ssa_analyzed(&mut self)
        ensures
            final(self).spec_disassembly() == Some(spec_make_blocks(old(self).spec_code())),
            match spec_make_blocks(old(self).spec_code()) {
                Ok(bs) => final(self).spec_ssa_state() == Some(spec_ssa(bs)),
                Err(_) => final(self).spec_ssa_state() == old(self).spec_ssa_state(),
            },
            final(self).spec_code() == old(self).spec_code(),
            final(self).spec_name() == old(self).spec_name(),
            final(self).spec_arg_count() == old(self).spec_arg_count(),
    {
        self.ensure_disassembly_analyzed();
        proof { use_type_invariant(&*self); }
        if let OptionalIL::Failure(_) = self.disassembly {
            return;
        }
        if let OptionalIL::NotAnalyzed = self.ssa {
            let result = try_perform_ssa_function(self.disassembly.unwrap());
            let new_state = match result {
                Ok(dec) => OptionalIL::Ready(dec),
                Err(msg) => OptionalIL::Failure(msg),
            };
            self.ssa = new_state;
        }
    }

    /// The SSA form of the function, analysed (with the disassembly it is
    /// made from) on first use.
    pub fn with_ssa(&mut self) -> (r: Result<&SSAFunction, AnalysisError<SSAError>>)
        ensures
            match spec_make_blocks(old(self).spec_code()) {
                Err(e) => r == Err::<&SSAFunction, AnalysisError<SSAError>>(AnalysisError::DependencyFailure(ErrorUnion::Disassembler(e))),
                Ok(bs) => match spec_ssa(bs) {
                    Ok(s) => r matches Ok(f) && f@ == s,
                    Err(e) => r == Err::<&SSAFunction, AnalysisError<SSAError>>(AnalysisError::Failure(e)),
                },
            },
            final(self).spec_disassembly() == Some(spec_make_blocks(old(self).spec_code())),
            spec_make_blocks(old(self).spec_code()) matches Ok(bs) ==> final(self).spec_ssa_state() == Some(spec_ssa(bs)),
            spec_make_blocks(old(self).spec_code()) is Err ==> final(self).spec_ssa_state() == old(self).spec_ssa_state(),
            final(self).spec_code() == old(self).spec_code(),
            final(self).spec_name() == old(self).spec_name(),
            final(self).spec_arg_count() == old(self).spec_arg_count(),
    {
        self.ensure_ssa_analyzed();
        if let OptionalIL::Failure(dis_err) = &self.disassembly {
            return Err(AnalysisError::DependencyFailure(ErrorUnion::Disassembler(*dis_err)));
        }
        match &self.ssa {
            OptionalIL::Ready(dec) => Ok(dec),
            OptionalIL::Failure(dec_err) => Err(AnalysisError::Failure(*dec_err)),
            OptionalIL::NotAnalyzed => {
                proof { assert(false); }
                Err(AnalysisError::Failure(SSAError::UnbalancedStack))
            },
        }
    }
}

/// The dense index range of the code of the `k`th function, where `keys`
/// are the functions' addresses in increasing order: from its address to
/// the next function's, or to the end of the code.
pub open spec fn function_range(code: ContainerView<Opcode>, keys: Seq<u32>, k: int) -> (int, int) {
    let start = spec_dense_index(code.addrs, keys[k] as usize)->0 as int;
    let end = if k + 1 < keys.len() {
        spec_dense_index(code.addrs, keys[k + 1] as usize)->0 as int
    } else {
        code.items.len() as int
    };
    (start, end)
}

/// The part of the code between two dense indices.
pub open spec fn code_part(code: ContainerView<Opcode>, start: int, end: int) -> ContainerView<Opcode> {
    ContainerView { items: code.items.subrange(start, end), addrs: code.addrs.subrange(start, end) }
}

/// The `k`th function made from stubs with the addresses `keys`: named and
/// counted as its stub says, its code the range of its stub, nothing yet
/// analysed.
pub open spec fn is_function_of(f: Function, code: ContainerView<Opcode>, keys: Seq<u32>, stub: StubView, k: int) -> bool {
    &&& f.spec_name() == stub.symbols
    &&& f.spec_arg_count() == stub.arg_count
    &&& f.spec_code() == code_part(code, function_range(code, keys, k).0, function_range(code, keys, k).1)
    &&& f.spec_disassembly() is None
    &&& f.spec_ssa_state() is None
}

/// Each stub's address is the address of an instruction.
pub open spec fn stubs_in_code(code: ContainerView<Opcode>, stubs: Seq<(u32, StubView)>) -> bool {
    forall|k: int| 0 <= k < stubs.len() ==> (#[trigger] spec_dense_index(code.addrs, stubs[k].0 as usize)) is Some
}

/// The argument count that a function's first instruction declares, read
/// off the instruction: the first operand of `ARGC` or `ARGCINCSP`, else 0.
pub open spec fn declared_by_first(f: Function) -> bool {
    &&& f.spec_code().items.len() > 0
    &&& f.spec_arg_count() == match f.spec_code().items[0] {
        Opcode::ARGC(n) => n,
        Opcode::ARGCINCSP(n, _) => n,
        _ => 0usize,
    }
}

/// Cut at increasing addresses that are all instructions, each part of the
/// code is nonempty and begins at its stub's address.
proof fn lemma_function_start(code: ContainerView<Opcode>, stubs: Seq<(u32, StubView)>, k: int)
    requires
        container_wf(code),
        code.items.len() <= usize::MAX,
        keys_increasing(stubs),
        stubs_in_code(code, stubs),
        0 <= k < stubs.len(),
    ensures
        0 <= function_range(code, stubs.map_values(|p: (u32, StubView)| p.0), k).0,
        function_range(code, stubs.map_values(|p: (u32, StubView)| p.0), k).0
            < function_range(code, stubs.map_values(|p: (u32, StubView)| p.0), k).1 <= code.items.len(),
        spec_dense_index(code.addrs, stubs[k].0 as usize)
            == Some(function_range(code, stubs.map_values(|p: (u32, StubView)| p.0), k).0 as usize),
{
    let keys = stubs.map_values(|p: (u32, StubView)| p.0);
    assert(keys[k] == stubs[k].0);
    assert(spec_dense_index(code.addrs, stubs[k].0 as usize) is Some);
    lemma_dense_index_found(code.addrs, stubs[k].0 as usize);
    let s = spec_dense_index(code.addrs, stubs[k].0 as usize)->0 as int;
    if k + 1 < stubs.len() {
        assert(keys[k + 1] == stubs[k + 1].0);
        assert(stubs[k].0 < stubs[k + 1].0);
        assert(spec_dense_index(code.addrs, stubs[k + 1].0 as usize) is Some);
        lemma_dense_index_found(code.addrs, stubs[k + 1].0 as usize);
        let e = spec_dense_index(code.addrs, stubs[k + 1].0 as usize)->0 as int;
        if e <= s {
            if e < s {
                assert(code.addrs[e] < code.addrs[s]);
            }
        }
    }
}

/// Cuts the code into functions at the stubs' addresses.
fn generate_functions(code_section: &AddressedContainer<Opcode>, stubs: Vec<(u32, Stub)>) -> (functions: Vec<Function>)
    requires
        keys_increasing(pairs_view(stubs@)),
        stubs_in_code(code_section@, pairs_view(stubs@)),
    ensures
        functions@.len() == stubs@.len(),
        forall|k: int| 0 <= k < stubs@.len() ==> is_function_of(
            #[trigger] functions@[k],
            code_section@,
            pairs_view(stubs@).map_values(|p: (u32, StubView)| p.0),
            pairs_view(stubs@)[k].1,
            k,
        ),
{
    let ghost code = code_section@;
    let ghost sv = pairs_view(stubs@);
    let ghost keys = sv.map_values(|p: (u32, StubView)| p.0);
    code_section.well_formed();
    let n = stubs.len();
    let mut keys_exec: Vec<u32> = Vec::new();
    let mut j: usize = 0;
    while j < n
        invariant
            n == stubs@.len(),
            sv == pairs_view(stubs@),
            keys == sv.map_values(|p: (u32, StubView)| p.0),
            j <= n,
            keys_exec@ == keys.subrange(0, j as int),
        decreases n - j,
    {
        keys_exec.push(stubs[j].0);
        assert(keys_exec@ =~= keys.subrange(0, j + 1));
        j = j + 1;
    }
    assert(keys_exec@ =~= keys);
    let code_end_idx = code_section.len();
    let mut functions: Vec<Function> = Vec::new();
    let mut rest = stubs;
    let mut i: usize = 0;
    while i < n
        invariant
            container_wf(code),
            code == code_section@,
            code_end_idx == code.items.len(),
            n == sv.len(),
            keys_exec@ == keys,
            keys == sv.map_values(|p: (u32, StubView)| p.0),
            keys_increasing(sv),
            stubs_in_code(code, sv),
            i <= n,
            pairs_view(rest@) == sv.subrange(i as int, n as int),
            functions@.len() == i,
            forall|k: int| 0 <= k < i ==> is_function_of(#[trigger] functions@[k], code, keys, sv[k].1, k),
        decreases n - i,
    {
        let ghost rv = pairs_view(rest@);
        let ghost rest0 = rest@;
        assert(rest@.len() == rv.len());
        assert(rv[0] == sv[i as int]);
        let (function_start, stub) = rest.remove(0);
        assert(rest@ =~= rest0.subrange(1, rest0.len() as int));
        assert(pairs_view(rest@) =~= rv.subrange(1, rv.len() as int));
        assert(pairs_view(rest@) =~= sv.subrange(i + 1, n as int));
        assert(spec_dense_index(code.addrs, sv[i as int].0 as usize) is Some);
        let start_idx = code_section.addr_to_idx(function_start as usize).unwrap();
        let end_idx = if i + 1 < n {
            assert(spec_dense_index(code.addrs, sv[i + 1].0 as usize) is Some);
            code_section.addr_to_idx(keys_exec[i + 1] as usize).unwrap()
        } else {
            code_end_idx
        };
        proof {
            let s = spec_dense_index(code.addrs, sv[i as int].0 as usize)->0;
            assert(0 <= s < code.addrs.len() && code.addrs[s as int] == sv[i as int].0 as usize) by {
                assert(code.addrs.contains(sv[i as int].0 as usize));
            }
            if i + 1 < n {
                let e = spec_dense_index(code.addrs, sv[i + 1].0 as usize)->0;
                assert(code.addrs.contains(sv[i + 1].0 as usize));
                assert(0 <= e < code.addrs.len() && code.addrs[e as int] == sv[i + 1].0 as usize);
                assert(sv[i as int].0 < sv[i + 1].0);
                if e <= s {
                    if e < s {
                        assert(code.addrs[e as int] < code.addrs[s as int]);
                    }
                }
            }
        }
        assert(start_idx <= end_idx);
        let view = code_section.slice(start_idx, end_idx).unwrap();
        assert(view@.items =~= code.items.subrange(start_idx as int, end_idx as int)) by {
            assert forall|q: int| 0 <= q < end_idx - start_idx implies view@.items[q] == code.items[start_idx + q] by {
                assert(cloned(code.items[start_idx + q], view@.items[q]));
            }
        }
        let function = Function::new(stub.symbols, stub.arg_count, view);
        let ghost fs_before = functions@;
        functions.push(function);
        assert(is_function_of(functions@[i as int], code, keys, sv[i as int].1, i as int));
        assert forall|k: int| 0 <= k < i + 1 implies is_function_of(#[trigger] functions@[k], code, keys, sv[k].1, k) by {
            if k < i {
                assert(functions@[k] == fs_before[k]);
            }
        }
        i = i + 1;
    }
    functions
}

/// Where the names of symbols come from.
#[derive(Debug, PartialEq, Eq, Clone, Copy, Hash, Structural)]
pub enum SymbolSource {
    ApiDb,
    SymbolSection,
    User,
}

/// The place of a source in the listing of symbols: the user's names
/// first, then the symbol section's, then the API database's.
pub open spec fn source_rank(s: SymbolSource) -> int {
    match s {
        SymbolSource::User => 0,
        SymbolSource::SymbolSection => 1,
        SymbolSource::ApiDb => 2,
    }
}

/// A symbol: its key, its name and where the name comes from.
#[derive(Debug, PartialEq, Eq)]
pub struct Symbol<'a> {
    pub key: u32,
    pub name: &'a String,
    pub source: SymbolSource,
}

/// The names of symbols: those of the SDK's API database, those the user
/// gave, and those of the program's symbol section.
pub struct SymbolDB {
    user_symbols: HashMap<u32, String>,
    api_db: Option<HashMap<u32, String>>,
    symbol_section: Option<SymbolData>,
}

pub struct SymbolDBView {
    pub user: Map<u32, Seq<char>>,
    pub api: Option<Map<u32, Seq<char>>>,
    pub section: Option<Map<u32, Seq<char>>>,
}

pub open spec fn opt_symbols_view(m: Option<HashMap<u32, String>>) -> Option<Map<u32, Seq<char>>> {
    match m {
        Some(m) => Some(symbols_view(m@)),
        None => None,
    }
}

impl View for SymbolDB {
    type V = SymbolDBView;

    closed spec fn view(&self) -> SymbolDBView {
        SymbolDBView {
            user: symbols_view(self.user_symbols@),
            api: opt_symbols_view(self.api_db),
            section: opt_symbols_view(self.symbol_section),
        }
    }
}

/// `key` in an optional table.
pub open spec fn opt_get(m: Option<Map<u32, Seq<char>>>, key: u32) -> Option<Seq<char>> {
    match m {
        Some(m) => if m.contains_key(key) { Some(m[key]) } else { None },
        None => None,
    }
}

/// The name of a symbol: the API database's first, then the user's, then
/// the symbol section's.
pub open spec fn spec_symbol_name(db: SymbolDBView, key: u32) -> Option<Seq<char>> {
    match opt_get(db.api, key) {
        Some(n) => Some(n),
        None => if db.user.contains_key(key) {
            Some(db.user[key])
        } else {
            opt_get(db.section, key)
        },
    }
}

/// The name that `get` found in an optional table.
fn opt_lookup(m: &Option<HashMap<u32, String>>, key: u32) -> (r: Option<&String>)
    ensures
        match opt_get(opt_symbols_view(*m), key) {
            Some(n) => r matches Some(s) && s@ == n,
            None => r is None,
        },
{
    match m {
        Some(m) => m.get(&key),
        None => None,
    }
}

impl SymbolDB {
    pub fn new(symbol_section: Option<SymbolData>, api_db: Option<HashMap<u32, String>>) -> (db: SymbolDB)
        ensures
            db@.user == Map::<u32, Seq<char>>::empty(),
            db@.api == opt_symbols_view(api_db),
            db@.section == opt_symbols_view(symbol_section),
    {
        let db = SymbolDB { api_db, user_symbols: HashMap::new(), symbol_section };
        assert(symbols_view(db.user_symbols@) =~= Map::<u32, Seq<char>>::empty());
        db
    }

    /// Names a symbol, replacing the user's earlier name for it.
    pub fn set_symbol_name(&mut self, key: u32, name: String)
        ensures
            final(self)@.user == old(self)@.user.insert(key, name@),
            final(self)@.api == old(self)@.api,
            final(self)@.section == old(self)@.section,
    {
        let ghost n = name@;
        self.user_symbols.insert(key, name);
        assert(symbols_view(self.user_symbols@) =~= old(self)@.user.insert(key, n));
    }

    pub fn get_symbol_name(&self, key: u32) -> (r: Option<&str>)
        ensures
            match spec_symbol_name(self@, key) {
                Some(n) => r matches Some(s) && s@ == n,
                None => r is None,
            },
    {
        let found = match opt_lookup(&self.api_db, key) {
            Some(s) => Some(s),
            None => match self.user_symbols.get(&key) {
                Some(s) => Some(s),
                None => opt_lookup(&self.symbol_section, key),
            },
        };
        match found {
            Some(s) => Some(s.as_str()),
            None => None,
        }
    }
}

impl crate::traits::AddressResolver for SymbolDB {
    open spec fn names(&self) -> ResolvedNames {
        ResolvedNames {
            symbols: Map::new(|a: u32| spec_symbol_name(self@, a) is Some, |a: u32| spec_symbol_name(self@, a)->0),
            data: Map::empty(),
        }
    }

    fn resolve_symbol(&self, addr: u32) -> (r: Option<&str>)
        ensures
            match spec_symbol_name(self@, addr) {
                Some(n) => r matches Some(s) && s@ == n,
                None => r is None,
            },
    {
        self.get_symbol_name(addr)
    }

    fn resolve_data(&self, addr: u32) -> (r: Option<&str>)
        ensures
            r is None,
    {
        None
    }
}

/// The decompiler's view of a program: its symbols and its functions.
pub struct MCD {
    pub symbols: SymbolDB,
    pub functions: Vec<Function>,
}

/// The functions of a parsed program, by code address: found through the
/// classes of its data section, their code in its code section.
pub open spec fn spec_program_stubs(ps: Seq<SectionView>) -> Result<Map<u32, StubView>, McdError> {
    match first_of(ps, SectionTag::Data) {
        None => Err(McdError::MissingDataSection),
        Some(i) => match first_of(ps, SectionTag::Code) {
            None => Err(McdError::MissingCodeSection),
            Some(j) => match (ps[i].kind, ps[j].kind) {
                (SectionKindView::Data(d), SectionKindView::Code(c)) => spec_find(d, c),
                _ => Err(McdError::MissingDataSection),
            },
        },
    }
}

/// The code section of a parsed program.
pub open spec fn program_code(ps: Seq<SectionView>) -> ContainerView<Opcode> {
    ps[first_of(ps, SectionTag::Code)->0].kind->Code_0
}

/// The symbol names of a program's first symbols section, if it has one.
pub open spec fn program_symbols(ps: Seq<SectionView>) -> Option<Map<u32, Seq<char>>> {
    match first_of(ps, SectionTag::Symbols) {
        Some(i) => Some(ps[i].kind->Symbols_0),
        None => None,
    }
}

/// The functions of a program are those of its stubs in address order.
pub open spec fn functions_of(fs: Seq<Function>, code: ContainerView<Opcode>, m: Map<u32, StubView>) -> bool {
    let sp = sorted_pairs(m);
    &&& fs.len() == sp.len()
    &&& forall|k: int| 0 <= k < fs.len() ==> is_function_of(#[trigger] fs[k], code, sp.map_values(|p: (u32, StubView)| p.0), sp[k].1, k)
}

impl MCD {
    /// Finds the functions of a program whose data the search can go
    /// through.
    pub fn new(sections: ProgramSections, api_db: Option<HashMap<u32, String>>) -> (r: MCD)
        requires
            spec_program_stubs(sections@) is Ok,
        ensures
            functions_of(r.functions@, program_code(sections@), spec_program_stubs(sections@)->Ok_0),
            r.symbols@.user == Map::<u32, Seq<char>>::empty(),
            r.symbols@.api == opt_symbols_view(api_db),
            r.symbols@.section == program_symbols(sections@),
            forall|k: int| 0 <= k < r.functions@.len() ==> declared_by_first(#[trigger] r.functions@[k]),
    {
        match MCD::try_new(sections, api_db) {
            Ok(m) => m,
            Err(_) => vstd::pervasive::unreached(),
        }
    }

    /// Finds the functions of a program, or why they cannot be found.
    pub fn try_new(sections: ProgramSections, api_db: Option<HashMap<u32, String>>) -> (r: Result<MCD, McdError>)
        ensures
            match spec_program_stubs(sections@) {
                Ok(m) => r matches Ok(mcd) && functions_of(mcd.functions@, program_code(sections@), m)
                    && mcd.symbols@.user == Map::<u32, Seq<char>>::empty()
                    && mcd.symbols@.api == opt_symbols_view(api_db)
                    && mcd.symbols@.section == program_symbols(sections@)
                    && forall|k: int| 0 <= k < mcd.functions@.len() ==> declared_by_first(#[trigger] mcd.functions@[k]),
                Err(e) => r matches Err(e2) && e2 == e,
            },
    {
        let mut sections = sections;
        let ghost ps = sections@;
        let data = match sections.get_data_section() {
            Some(d) => d,
            None => return Err(McdError::MissingDataSection),
        };
        let code = match sections.get_code_section() {
            Some(c) => c,
            None => return Err(McdError::MissingCodeSection),
        };
        let stubs = class_recursive_function_find(data, code)?;
        let ghost m = pairs_map(pairs_view(stubs@));
        proof {
            lemma_is_sorted_pairs(pairs_view(stubs@));
            assert(m == spec_program_stubs(ps)->Ok_0);
            lemma_stubs_in_code(data_view(data@), code@, m);
            assert(stubs_in_code(code@, pairs_view(stubs@))) by {
                assert forall|k: int| 0 <= k < pairs_view(stubs@).len() implies (#[trigger] spec_dense_index(code@.addrs, pairs_view(stubs@)[k].0 as usize)) is Some by {
                    crate::sorted_table::lemma_pairs_map_contents(pairs_view(stubs@));
                    assert(m.contains_key(pairs_view(stubs@)[k].0));
                }
            }
        }
        let ghost sv = pairs_view(stubs@);
        let _code_len: usize = code.len();
        let functions = generate_functions(code, stubs);
        proof {
            lemma_found_args_declared(data_view(data@), code@, m);
            crate::sorted_table::lemma_pairs_map_contents(sv);
            assert forall|k: int| 0 <= k < functions@.len() implies declared_by_first(#[trigger] functions@[k]) by {
                lemma_function_start(code@, sv, k);
                assert(m[sv[k].0] == sv[k].1);
                assert(m.contains_key(sv[k].0));
            }
        }
        let symbols = SymbolDB::new(sections.take_symbols_section(), api_db);
        Ok(MCD { functions, symbols })
    }
}

/// Every function the search records starts at an instruction.
pub proof fn lemma_stubs_in_code(data: Map<u32, DataEntryView>, code: ContainerView<Opcode>, m: Map<u32, StubView>)
    requires
        spec_find(data, code) == Ok::<Map<u32, StubView>, McdError>(m),
    ensures
        forall|k: u32| m.contains_key(k) ==> (#[trigger] spec_dense_index(code.addrs, k as usize)) is Some,
{
    lemma_find_inner_in_code(data, code, DataAddress(0), seq![], Map::empty(), data.len());
}

/// What the search through a class records starts at an instruction, as
/// far as what it started from did.
pub proof fn lemma_find_inner_in_code(
    data: Map<u32, DataEntryView>,
    code: ContainerView<Opcode>,
    id: DataAddress,
    ancestors: Seq<SymbolAddress>,
    acc: Map<u32, StubView>,
    fuel: nat,
)
    ensures
        (forall|k: u32| acc.contains_key(k) ==> (#[trigger] spec_dense_index(code.addrs, k as usize)) is Some)
            ==> (spec_find_inner(data, code, id, ancestors, acc, fuel) matches Ok(m2)
                ==> forall|k: u32| m2.contains_key(k) ==> (#[trigger] spec_dense_index(code.addrs, k as usize)) is Some),
    decreases fuel, class_fields(data, id.0).len() + 1,
{
    if data.contains_key(id.0) && fuel > 0 {
        match data[id.0] {
            DataEntryView::Class(c) => {
                lemma_fields_in_code(data, code, id, c.extends_offset, c.fields, 0, ancestors, acc, fuel);
            },
            _ => {},
        }
    }
}

pub proof fn lemma_fields_in_code(
    data: Map<u32, DataEntryView>,
    code: ContainerView<Opcode>,
    id: DataAddress,
    extends: Option<DataAddress>,
    fields: Seq<Field>,
    i: int,
    ancestors: Seq<SymbolAddress>,
    acc: Map<u32, StubView>,
    fuel: nat,
)
    ensures
        (forall|k: u32| acc.contains_key(k) ==> (#[trigger] spec_dense_index(code.addrs, k as usize)) is Some)
            ==> (spec_fields(data, code, id, extends, fields, i, ancestors, acc, fuel) matches Ok(m2)
                ==> forall|k: u32| m2.contains_key(k) ==> (#[trigger] spec_dense_index(code.addrs, k as usize)) is Some),
    decreases fuel, fields.len() - i,
{
    if 0 <= i < fields.len() {
        let f = fields[i];
        let path = ancestors.push(f.symbol);
        let r: Result<Map<u32, StubView>, McdError> = match f.value {
            FieldValue::Method(ca) => match spec_dense_index(code.addrs, ca.0 as usize) {
                None => Err(McdError::MissingMethodCode(ca)),
                Some(k) => Ok(acc.insert(ca.0, StubView { arg_count: arg_count_of(code.items[k as int]), symbols: path })),
            },
            FieldValue::Class(ClassTypes::Data(a)) | FieldValue::Module(a) => {
                if extends == Some(a) {
                    Ok(acc)
                } else if fuel == 0 {
                    Err(McdError::CyclicData)
                } else {
                    lemma_find_inner_in_code(data, code, a, path, acc, (fuel - 1) as nat);
                    spec_find_inner(data, code, a, path, acc, (fuel - 1) as nat)
                }
            },
            _ => Ok(acc),
        };
        match r {
            Err(_) => {},
            Ok(acc2) => {
                lemma_fields_in_code(data, code, id, extends, fields, i + 1, ancestors, acc2, fuel);
            },
        }
    }
}

/// Every method recorded in `m` starts at an instruction, and its argument
/// count is the first operand of the `ARGC` or `ARGCINCSP` instruction there
/// (0 for a method that starts with any other instruction).
pub open spec fn stubs_declare_args(code: ContainerView<Opcode>, m: Map<u32, StubView>) -> bool {
    forall|a: u32| #[trigger] m.contains_key(a) ==> match spec_dense_index(code.addrs, a as usize) {
        Some(i) => m[a].arg_count == match code.items[i as int] {
            Opcode::ARGC(n) => n,
            Opcode::ARGCINCSP(n, _) => n,
            _ => 0usize,
        },
        None => false,
    }
}

/// The functions that the search finds take as many arguments as the
/// instruction at their start declares.
pub proof fn lemma_found_args_declared(data: Map<u32, DataEntryView>, code: ContainerView<Opcode>, m: Map<u32, StubView>)
    requires
        spec_find(data, code) == Ok::<Map<u32, StubView>, McdError>(m),
    ensures
        stubs_declare_args(code, m),
{
    lemma_find_inner_declares(data, code, DataAddress(0), seq![], Map::empty(), data.len());
}

/// The search through a class keeps the argument counts declared.
proof fn lemma_find_inner_declares(
    data: Map<u32, DataEntryView>,
    code: ContainerView<Opcode>,
    id: DataAddress,
    ancestors: Seq<SymbolAddress>,
    acc: Map<u32, StubView>,
    fuel: nat,
)
    ensures
        stubs_declare_args(code, acc) ==> (spec_find_inner(data, code, id, ancestors, acc, fuel) matches Ok(m2)
            ==> stubs_declare_args(code, m2)),
    decreases fuel, class_fields(data, id.0).len() + 1,
{
    if data.contains_key(id.0) && fuel > 0 {
        match data[id.0] {
            DataEntryView::Class(c) => {
                lemma_fields_declare(data, code, id, c.extends_offset, c.fields, 0, ancestors, acc, fuel);
            },
            _ => {},
        }
    }
}

/// The search through fields keeps the argument counts declared.
proof fn lemma_fields_declare(
    data: Map<u32, DataEntryView>,
    code: ContainerView<Opcode>,
    id: DataAddress,
    extends: Option<DataAddress>,
    fields: Seq<Field>,
    i: int,
    ancestors: Seq<SymbolAddress>,
    acc: Map<u32, StubView>,
    fuel: nat,
)
    ensures
        stubs_declare_args(code, acc) ==> (spec_fields(data, code, id, extends, fields, i, ancestors, acc, fuel) matches Ok(m2)
            ==> stubs_declare_args(code, m2)),
    decreases fuel, fields.len() - i,
{
    if 0 <= i < fields.len() && stubs_declare_args(code, acc) {
        let f = fields[i];
        let path = ancestors.push(f.symbol);
        let r: Result<Map<u32, StubView>, McdError> = match f.value {
            FieldValue::Method(ca) => match spec_dense_index(code.addrs, ca.0 as usize) {
                None => Err(McdError::MissingMethodCode(ca)),
                Some(k) => {
                    let acc2 = acc.insert(ca.0, StubView { arg_count: arg_count_of(code.items[k as int]), symbols: path });
                    assert forall|a: u32| #[trigger] acc2.contains_key(a) implies match spec_dense_index(code.addrs, a as usize) {
                        Some(i) => acc2[a].arg_count == match code.items[i as int] {
                            Opcode::ARGC(n) => n,
                            Opcode::ARGCINCSP(n, _) => n,
                            _ => 0usize,
                        },
                        None => false,
                    } by {
                        if a != ca.0 {
                            assert(acc.contains_key(a));
                        }
                    }
                    Ok(acc2)
                },
            },
            FieldValue::Class(ClassTypes::Data(a)) | FieldValue::Module(a) => {
                if extends == Some(a) {
                    Ok(acc)
                } else if fuel == 0 {
                    Err(McdError::CyclicData)
                } else {
                    lemma_find_inner_declares(data, code, a, path, acc, (fuel - 1) as nat);
                    spec_find_inner(data, code, a, path, acc, (fuel - 1) as nat)
                }
            },
            _ => Ok(acc),
        };
        match r {
            Err(_) => {},
            Ok(acc2) => {
                lemma_fields_declare(data, code, id, extends, fields, i + 1, ancestors, acc2, fuel);
            },
        }
    }
}

/// Where a listed symbol's name comes from: the user's names first, then
/// the symbol section's, then the API database's.
pub open spec fn listed_source(db: SymbolDBView, key: u32) -> Option<(SymbolSource, Seq<char>)> {
    if db.user.contains_key(key) {
        Some((SymbolSource::User, db.user[key]))
    } else {
        match opt_get(db.section, key) {
            Some(n) => Some((SymbolSource::SymbolSection, n)),
            None => match opt_get(db.api, key) {
                Some(n) => Some((SymbolSource::ApiDb, n)),
                None => None,
            },
        }
    }
}

/// The keys of a list of symbols.
pub open spec fn symbol_keys(v: Seq<Symbol>) -> Set<u32> {
    Set::new(|k: u32| exists|i: int| 0 <= i < v.len() && v[i].key == k)
}

/// No key is listed twice, and `seen` holds the keys listed.
pub open spec fn listing_ok(v: Seq<Symbol>, seen: Set<u32>) -> bool {
    &&& forall|i: int, j: int| 0 <= i < j < v.len() ==> v[i].key != v[j].key
    &&& seen == symbol_keys(v)
}

/// Lists the symbols of one table that are not listed yet.
fn add_symbols<'a>(m: &'a HashMap<u32, String>, source: SymbolSource, seen: &mut HashSet<u32>, out: &mut Vec<Symbol<'a>>)
    requires
        listing_ok(old(out)@, old(seen)@),
    ensures
        listing_ok(final(out)@, final(seen)@),
        final(seen)@ == old(seen)@.union(m@.dom()),
        final(out)@.len() >= old(out)@.len(),
        final(out)@.subrange(0, old(out)@.len() as int) == old(out)@,
        forall|i: int| old(out)@.len() <= i < final(out)@.len() ==> {
            &&& (#[trigger] final(out)@[i]).source == source
            &&& m@.contains_key(final(out)@[i].key)
            &&& !old(seen)@.contains(final(out)@[i].key)
            &&& final(out)@[i].name@ == m@[final(out)@[i].key]@
        },
{
    let ghost out0 = out@;
    let ghost seen0 = seen@;
    for item in it: m.iter()
        invariant
            listing_ok(out@, seen@),
            out@.len() >= out0.len(),
            out@.subrange(0, out0.len() as int) == out0,
            seen0.subset_of(seen@),
            seen@.subset_of(seen0.union(m@.dom())),
            forall|j: int| 0 <= j < it.index() ==> seen@.contains(*(#[trigger] it.seq()[j]).0),
            forall|i: int| out0.len() <= i < out@.len() ==> {
                &&& (#[trigger] out@[i]).source == source
                &&& m@.contains_key(out@[i].key)
                &&& !seen0.contains(out@[i].key)
                &&& out@[i].name@ == m@[out@[i].key]@
            },
            it.seq() == spec_hash_map_iter(m).remaining(),
        ensures
            forall|j: int| 0 <= j < spec_hash_map_iter(m).remaining().len() ==> seen@.contains(*(#[trigger] spec_hash_map_iter(m).remaining()[j]).0),
    {
        let (key, name) = item;
        let ghost idx = it.index();
        assert(m@.contains_key(*key) && m@[*key] == *name) by {
            assert(it.seq()[idx] == item);
        }
        let ghost seen_before = seen@;
        let inserted = seen.insert(*key);
        if !inserted {
            assert(seen@ =~= seen_before);
        }
        if inserted {
            let ghost before = out@;
            out.push(Symbol { key: *key, name, source });
            proof {
                assert(out@.subrange(0, out0.len() as int) =~= out0) by {
                    assert(before.subrange(0, out0.len() as int) == out0);
                }
                assert(symbol_keys(out@) =~= symbol_keys(before).insert(*key)) by {
                    assert forall|k: u32| symbol_keys(out@).contains(k) implies symbol_keys(before).insert(*key).contains(k) by {
                        let i = choose|i: int| 0 <= i < out@.len() && out@[i].key == k;
                        if i < before.len() {
                            assert(before[i].key == k);
                        }
                    }
                    assert forall|k: u32| symbol_keys(before).insert(*key).contains(k) implies symbol_keys(out@).contains(k) by {
                        if k == *key {
                            assert(out@[before.len() as int].key == k);
                        } else {
                            let i = choose|i: int| 0 <= i < before.len() && before[i].key == k;
                            assert(out@[i].key == k);
                        }
                    }
                }
                assert forall|a: int, b: int| 0 <= a < b < out@.len() implies out@[a].key != out@[b].key by {
                    if b == before.len() {
                        assert(symbol_keys(before).contains(before[a].key));
                    } else {
                        assert(out@[a] == before[a] && out@[b] == before[b]);
                    }
                }
            }
        }
    }
    proof {
        assert forall|k: u32| m@.dom().contains(k) implies seen@.contains(k) by {
            assert(spec_hash_map_iter(m).remaining().contains((&k, &m@[k])));
            let r = spec_hash_map_iter(m).remaining();
            let j = choose|j: int| 0 <= j < r.len() && r[j] == (&k, &m@[k]);
            assert(seen@.contains(*r[j].0));
        }
        assert(seen@ =~= seen0.union(m@.dom()));
    }
}

impl SymbolDB {
    /// The symbols of all three tables, each key once, named from the first
    /// table that has it in the order: the user's, the symbol section's, the
    /// API database's. The user's symbols come first, then the symbol
    /// section's, then the API database's; within one table the order is that
    /// of its hashing.
    pub fn iter_symbols(&self) -> (v: Vec<Symbol<'_>>)
        ensures
            forall|i: int, j: int| 0 <= i < j < v@.len() ==> v@[i].key != v@[j].key,
            forall|k: u32| symbol_keys(v@).contains(k) <==> listed_source(self@, k) is Some,
            forall|i: int| 0 <= i < v@.len() ==> listed_source(self@, (#[trigger] v@[i]).key) == Some((v@[i].source, v@[i].name@)),
            forall|i: int, j: int| 0 <= i < j < v@.len() ==> source_rank(#[trigger] v@[i].source) <= source_rank(#[trigger] v@[j].source),
    {
        let mut seen: HashSet<u32> = HashSet::new();
        let mut out: Vec<Symbol<'_>> = Vec::new();
        assert(symbol_keys(out@) =~= Set::<u32>::empty());
        add_symbols(&self.user_symbols, SymbolSource::User, &mut seen, &mut out);
        let ghost after_user = out@;
        let ghost seen_user = seen@;
        if let Some(section) = &self.symbol_section {
            add_symbols(section, SymbolSource::SymbolSection, &mut seen, &mut out);
        }
        let ghost after_section = out@;
        let ghost seen_section = seen@;
        if let Some(api) = &self.api_db {
            add_symbols(api, SymbolSource::ApiDb, &mut seen, &mut out);
        }
        proof {
            let db = self@;
            assert forall|i: int| 0 <= i < out@.len() implies listed_source(db, (#[trigger] out@[i]).key) == Some((out@[i].source, out@[i].name@)) by {
                let k = out@[i].key;
                if i < after_user.len() {
                    assert(after_section.subrange(0, after_user.len() as int)[i] == out@[i]) by {
                        assert(out@.subrange(0, after_section.len() as int)[i] == out@[i]);
                    }
                    assert(after_user[i] == out@[i]);
                } else if i < after_section.len() {
                    assert(out@.subrange(0, after_section.len() as int)[i] == out@[i]);
                    assert(after_section[i] == out@[i]);
                    assert(!seen_user.contains(k));
                    assert(!db.user.contains_key(k)) by {
                        assert(self.user_symbols@.dom().contains(k) ==> seen_user.contains(k));
                    }
                } else {
                    assert(!seen_section.contains(k));
                    assert(!db.user.contains_key(k)) by {
                        assert(self.user_symbols@.dom().contains(k) ==> seen_user.contains(k));
                    }
                    assert(opt_get(db.section, k) is None) by {
                        if let Some(sec) = self.symbol_section {
                            assert(sec@.dom().contains(k) ==> seen_section.contains(k));
                        }
                    }
                }
            }
            assert forall|k: u32| symbol_keys(out@).contains(k) <==> listed_source(db, k) is Some by {
                if listed_source(db, k) is Some {
                    if db.user.contains_key(k) {
                        assert(self.user_symbols@.dom().contains(k));
                    } else if opt_get(db.section, k) is Some {
                        assert(self.symbol_section.unwrap()@.dom().contains(k));
                    } else {
                        assert(self.api_db.unwrap()@.dom().contains(k));
                    }
                    assert(seen@.contains(k));
                }
                if symbol_keys(out@).contains(k) {
                    assert(seen@.contains(k));
                    if self.user_symbols@.dom().contains(k) {
                    } else if self.symbol_section is Some && self.symbol_section.unwrap()@.dom().contains(k) {
                    } else {
                        assert(self.api_db is Some && self.api_db.unwrap()@.dom().contains(k));
                    }
                }
            }
            assert forall|i: int| 0 <= i < out@.len() implies source_rank((#[trigger] out@[i]).source)
                == (if i < after_user.len() { 0int } else if i < after_section.len() { 1int } else { 2int }) by {
                if i < after_user.len() {
                    assert(after_section.subrange(0, after_user.len() as int)[i] == out@[i]) by {
                        assert(out@.subrange(0, after_section.len() as int)[i] == out@[i]);
                    }
                    assert(after_user[i] == out@[i]);
                } else if i < after_section.len() {
                    assert(out@.subrange(0, after_section.len() as int)[i] == out@[i]);
                    assert(after_section[i] == out@[i]);
                }
            }
        }
        out
    }
}

/// A line of the API database: a symbol name and its key, and nothing else.
pub open spec fn spec_symbol_line(line: Seq<char>) -> Option<(u32, Seq<char>)> {
    let words = words_of(line);
    if words.len() == 2 {
        match spec_parse_u32(words[1]) {
            Some(k) => Some((k, words[0])),
            None => None,
        }
    } else {
        None
    }
}

/// Reads one line of the API database.
pub fn parse_symbol_db_line(line: &str) -> (r: Option<(u32, String)>)
    ensures
        match spec_symbol_line(line@) {
            Some((k, n)) => r matches Some((k2, s)) && k2 == k && s@ == n,
            None => r is None,
        },
{
    let words = split_words(line);
    assert(words@.len() == words_of(line@).len());
    if words.len() != 2 {
        return None;
    }
    assert(words@[1]@ == words_of(line@)[1]);
    assert(words@[0]@ == words_of(line@)[0]);
    match parse_u32(words[1].as_str()) {
        Some(k) => Some((k, words[0].clone())),
        None => None,
    }
}

/// The table that the lines of the API database give: each well-formed
/// line names its key, a later line replacing an earlier one.
pub open spec fn spec_symbol_db(lines: Seq<Seq<char>>) -> Map<u32, Seq<char>>
    decreases lines.len(),
{
    if lines.len() == 0 {
        Map::empty()
    } else {
        let m = spec_symbol_db(lines.drop_last());
        match spec_symbol_line(lines.last()) {
            Some((k, n)) => m.insert(k, n),
            None => m,
        }
    }
}

/// Reads the lines of the API database into a table of names.
pub fn symbol_db_from_lines(lines: &Vec<String>) -> (m: HashMap<u32, String>)
    ensures
        symbols_view(m@) == spec_symbol_db(lines@.map_values(|l: String| l@)),
{
    let ghost ls = lines@.map_values(|l: String| l@);
    let mut map: HashMap<u32, String> = HashMap::new();
    assert(symbols_view(map@) =~= Map::<u32, Seq<char>>::empty());
    let mut i: usize = 0;
    while i < lines.len()
        invariant
            ls == lines@.map_values(|l: String| l@),
            i <= lines@.len(),
            symbols_view(map@) == spec_symbol_db(ls.subrange(0, i as int)),
        decreases lines@.len() - i,
    {
        let parsed = parse_symbol_db_line(lines[i].as_str());
        assert(ls.subrange(0, i + 1).drop_last() =~= ls.subrange(0, i as int));
        assert(ls.subrange(0, i + 1).last() == lines@[i as int]@);
        match parsed {
            Some((k, name)) => {
                let ghost before = symbols_view(map@);
                let ghost n = name@;
                map.insert(k, name);
                assert(symbols_view(map@) =~= before.insert(k, n));
            },
            None => {},
        }
        i = i + 1;
    }
    assert(ls.subrange(0, lines@.len() as int) =~= ls);
    map
}

/// A name the user gives a symbol is the name it is found by, unless the
/// API database names it; other symbols keep their names.
pub proof fn lemma_set_then_get(db: SymbolDBView, key: u32, name: Seq<char>, other: u32)
    ensures
        ({
            let db2 = SymbolDBView { user: db.user.insert(key, name), api: db.api, section: db.section };
            &&& spec_symbol_name(db2, key) == (match opt_get(db.api, key) {
                Some(n) => Some(n),
                None => Some(name),
            })
            &&& other != key ==> spec_symbol_name(db2, other) == spec_symbol_name(db, other)
        }),
{
}

} // verus!
