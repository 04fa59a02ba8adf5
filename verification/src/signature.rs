//! Signature records and the bundles that carry them.

use crate::guid::{FunctionGUID, TypeGUID};
use crate::types::{Type, TypeModel};
use vstd::prelude::*;
use vstd::std_specs::cmp::PartialEqSpecImpl;

verus! {

/// The name under which a function or a callee is known.
#[derive(Debug)]
pub struct Symbol {
    pub name: String,
}

/// What was observed at one call instruction inside a signature's source function.
#[derive(Debug)]
pub struct CallSiteConstraint {
    pub guid: Option<FunctionGUID>,
    pub symbol: Option<Symbol>,
}

/// The facts that tell apart the functions that share one content hash.
#[derive(Debug)]
pub struct FunctionConstraints {
    pub call_sites: Vec<CallSiteConstraint>,
}

/// A stored description of a previously analysed function.
#[derive(Debug)]
pub struct Function {
    pub guid: FunctionGUID,
    pub symbol: Option<Symbol>,
    pub ty: Type,
    pub constraints: FunctionConstraints,
}

/// A type of a bundle, with the content hash under which the bundle lists it.
#[derive(Debug)]
pub struct ComputedType {
    pub guid: TypeGUID,
    pub ty: Type,
}

/// A signature bundle: the unit in which signature data is distributed.
#[derive(Debug)]
pub struct Data {
    pub functions: Vec<Function>,
    pub types: Vec<ComputedType>,
}

/// What a `Symbol` stands for.
pub struct SymbolModel {
    pub name: Seq<char>,
}

/// What a `CallSiteConstraint` stands for.
pub struct CallSiteModel {
    pub guid: Option<FunctionGUID>,
    pub symbol: Option<SymbolModel>,
}

/// What a `Function` stands for.
pub struct FunctionModel {
    pub guid: FunctionGUID,
    pub symbol: Option<SymbolModel>,
    pub ty: TypeModel,
    pub call_sites: Seq<CallSiteModel>,
}

/// What a `ComputedType` stands for.
pub struct ComputedTypeModel {
    pub guid: TypeGUID,
    pub ty: TypeModel,
}

/// What a `Data` stands for.
pub struct DataModel {
    pub functions: Seq<FunctionModel>,
    pub types: Seq<ComputedTypeModel>,
}

impl View for Symbol {
    type V = SymbolModel;

    open spec fn view(&self) -> SymbolModel {
        SymbolModel { name: self.name@ }
    }
}

/// What an optional symbol stands for.
pub open spec fn symbol_model(symbol: Option<Symbol>) -> Option<SymbolModel> {
    match symbol {
        Some(s) => Some(s@),
        None => None,
    }
}

impl View for CallSiteConstraint {
    type V = CallSiteModel;

    open spec fn view(&self) -> CallSiteModel {
        CallSiteModel { guid: self.guid, symbol: symbol_model(self.symbol) }
    }
}

/// What a run of call-site constraints stands for.
pub open spec fn call_sites_model(call_sites: Seq<CallSiteConstraint>) -> Seq<CallSiteModel> {
    call_sites.map_values(|c: CallSiteConstraint| c@)
}

impl View for Function {
    type V = FunctionModel;

    open spec fn view(&self) -> FunctionModel {
        FunctionModel {
            guid: self.guid,
            symbol: symbol_model(self.symbol),
            ty: self.ty@,
            call_sites: call_sites_model(self.constraints.call_sites@),
        }
    }
}

/// What a run of records stands for.
pub open spec fn functions_model(functions: Seq<Function>) -> Seq<FunctionModel> {
    functions.map_values(|f: Function| f@)
}

impl View for ComputedType {
    type V = ComputedTypeModel;

    open spec fn view(&self) -> ComputedTypeModel {
        ComputedTypeModel { guid: self.guid, ty: self.ty@ }
    }
}

/// What a run of listed types stands for.
pub open spec fn computed_types_model(types: Seq<ComputedType>) -> Seq<ComputedTypeModel> {
    types.map_values(|t: ComputedType| t@)
}

impl View for Data {
    type V = DataModel;

    open spec fn view(&self) -> DataModel {
        DataModel {
            functions: functions_model(self.functions@),
            types: computed_types_model(self.types@),
        }
    }
}

/// What a run of bundles stands for.
pub open spec fn bundles_model(bundles: Seq<Data>) -> Seq<DataModel> {
    bundles.map_values(|d: Data| d@)
}

impl Clone for Symbol {
    fn clone(&self) -> (r: Self)
        ensures
            r@ == self@,
    {
        Symbol { name: self.name.clone() }
    }
}

/// A copy of an optional symbol.
pub(crate) fn clone_symbol(symbol: &Option<Symbol>) -> (r: Option<Symbol>)
    ensures
        symbol_model(r) == symbol_model(*symbol),
{
    match symbol {
        Some(s) => Some(s.clone()),
        None => None,
    }
}

/// Whether two optional symbols are the same.
pub(crate) fn same_symbol(a: &Option<Symbol>, b: &Option<Symbol>) -> (r: bool)
    ensures
        r == (symbol_model(*a) == symbol_model(*b)),
{
    match a {
        Some(x) => match b {
            Some(y) => x.name == y.name,
            None => false,
        },
        None => b.is_none(),
    }
}

impl Clone for CallSiteConstraint {
    fn clone(&self) -> (r: Self)
        ensures
            r@ == self@,
    {
        CallSiteConstraint { guid: self.guid, symbol: clone_symbol(&self.symbol) }
    }
}

/// A copy of a run of call-site constraints.
pub(crate) fn clone_call_sites(call_sites: &Vec<CallSiteConstraint>) -> (r: Vec<CallSiteConstraint>)
    ensures
        call_sites_model(r@) == call_sites_model(call_sites@),
{
    let mut out: Vec<CallSiteConstraint> = Vec::new();
    let mut i: usize = 0;
    while i < call_sites.len()
        invariant
            i <= call_sites.len(),
            out.len() == i,
            forall|j: int| 0 <= j < i ==> (#[trigger] out[j])@ == call_sites[j]@,
        decreases call_sites.len() - i,
    {
        out.push(call_sites[i].clone());
        i += 1;
    }
    out
}

impl Clone for FunctionConstraints {
    fn clone(&self) -> (r: Self)
        ensures
            call_sites_model(r.call_sites@) == call_sites_model(self.call_sites@),
    {
        FunctionConstraints { call_sites: clone_call_sites(&self.call_sites) }
    }
}

impl Clone for Function {
    fn clone(&self) -> (r: Self)
        ensures
            r@ == self@,
    {
        Function {
            guid: self.guid,
            symbol: clone_symbol(&self.symbol),
            ty: self.ty.clone(),
            constraints: self.constraints.clone(),
        }
    }
}

impl Clone for ComputedType {
    fn clone(&self) -> (r: Self)
        ensures
            r@ == self@,
    {
        ComputedType { guid: self.guid, ty: self.ty.clone() }
    }
}

fn same_call_site(a: &CallSiteConstraint, b: &CallSiteConstraint) -> (r: bool)
    ensures
        r == (a@ == b@),
{
    a.guid == b.guid && same_symbol(&a.symbol, &b.symbol)
}

fn same_call_sites(a: &Vec<CallSiteConstraint>, b: &Vec<CallSiteConstraint>) -> (r: bool)
    ensures
        r == (call_sites_model(a@) == call_sites_model(b@)),
{
    if a.len() != b.len() {
        return false;
    }
    let mut i: usize = 0;
    while i < a.len()
        invariant
            i <= a.len(),
            a.len() == b.len(),
            forall|j: int| 0 <= j < i ==> (#[trigger] a[j])@ == b[j]@,
        decreases a.len() - i,
    {
        if !same_call_site(&a[i], &b[i]) {
            assert(call_sites_model(a@)[i as int] != call_sites_model(b@)[i as int]);
            return false;
        }
        i += 1;
    }
    assert(call_sites_model(a@) =~= call_sites_model(b@));
    true
}

impl PartialEq for Symbol {
    fn eq(&self, other: &Self) -> (r: bool) {
        self.name == other.name
    }
}

impl PartialEqSpecImpl for Symbol {
    open spec fn obeys_eq_spec() -> bool {
        true
    }

    open spec fn eq_spec(&self, other: &Self) -> bool {
        self@ == other@
    }
}

impl Eq for Symbol {}

impl PartialEq for CallSiteConstraint {
    fn eq(&self, other: &Self) -> (r: bool) {
        same_call_site(self, other)
    }
}

impl PartialEqSpecImpl for CallSiteConstraint {
    open spec fn obeys_eq_spec() -> bool {
        true
    }

    open spec fn eq_spec(&self, other: &Self) -> bool {
        self@ == other@
    }
}

impl Eq for CallSiteConstraint {}

impl PartialEq for Function {
    fn eq(&self, other: &Self) -> (r: bool) {
        self.guid == other.guid && same_symbol(&self.symbol, &other.symbol) && self.ty == other.ty
            && same_call_sites(&self.constraints.call_sites, &other.constraints.call_sites)
    }
}

impl PartialEqSpecImpl for Function {
    open spec fn obeys_eq_spec() -> bool {
        true
    }

    open spec fn eq_spec(&self, other: &Self) -> bool {
        self@ == other@
    }
}

impl Eq for Function {}

/// The union of a run of bundles: the functions of all of them, and the types of all of
/// them, in the order of the bundles. Nothing is left out and nothing is added.
pub open spec fn merged(bundles: Seq<DataModel>) -> DataModel {
    DataModel {
        functions: bundles.map_values(|d: DataModel| d.functions).flatten(),
        types: bundles.map_values(|d: DataModel| d.types).flatten(),
    }
}

fn append_functions(out: &mut Vec<Function>, more: &Vec<Function>)
    ensures
        functions_model(final(out)@) == functions_model(old(out)@) + functions_model(more@),
{
    let mut i: usize = 0;
    while i < more.len()
        invariant
            i <= more.len(),
            functions_model(out@) == functions_model(old(out)@) + functions_model(more@).take(
                i as int,
            ),
        decreases more.len() - i,
    {
        let ghost before = out@;
        out.push(more[i].clone());
        assert(functions_model(out@) =~= functions_model(before).push(more[i as int]@));
        i += 1;
    }
}

fn append_types(out: &mut Vec<ComputedType>, more: &Vec<ComputedType>)
    ensures
        computed_types_model(final(out)@) == computed_types_model(old(out)@)
            + computed_types_model(more@),
{
    let mut i: usize = 0;
    while i < more.len()
        invariant
            i <= more.len(),
            computed_types_model(out@) == computed_types_model(old(out)@) + computed_types_model(
                more@,
            ).take(i as int),
        decreases more.len() - i,
    {
        let ghost before = out@;
        out.push(more[i].clone());
        assert(computed_types_model(out@) =~= computed_types_model(before).push(more[i as int]@));
        i += 1;
    }
}

impl Data {
    /// A bundle without any record.
    pub fn new() -> (data: Data)
        ensures
            data@.functions == Seq::<FunctionModel>::empty(),
            data@.types == Seq::<ComputedTypeModel>::empty(),
    {
        Data { functions: Vec::new(), types: Vec::new() }
    }

    /// The union of the bundles.
    pub fn merge(entries: &[Data]) -> (data: Data)
        ensures
            data@ == merged(bundles_model(entries@)),
    {
        let ghost bundles = bundles_model(entries@);
        let ghost functions = bundles.map_values(|d: DataModel| d.functions);
        let ghost types = bundles.map_values(|d: DataModel| d.types);
        let mut data = Data::new();
        let mut i: usize = 0;
        while i < entries.len()
            invariant
                i <= entries.len(),
                bundles == bundles_model(entries@),
                functions == bundles.map_values(|d: DataModel| d.functions),
                types == bundles.map_values(|d: DataModel| d.types),
                data@.functions == functions.take(i as int).flatten(),
                data@.types == types.take(i as int).flatten(),
            decreases entries.len() - i,
        {
            append_functions(&mut data.functions, &entries[i].functions);
            append_types(&mut data.types, &entries[i].types);
            proof {
                assert(functions.take(i + 1) =~= functions.take(i as int).push(functions[i as int]));
                functions.take(i as int).lemma_flatten_push(functions[i as int]);
                assert(types.take(i + 1) =~= types.take(i as int).push(types[i as int]));
                types.take(i as int).lemma_flatten_push(types[i as int]);
            }
            i += 1;
        }
        assert(functions.take(entries.len() as int) =~= functions);
        assert(types.take(entries.len() as int) =~= types);
        data
    }
}

/// An element is in the concatenation of runs exactly if it is in one of the runs.
proof fn lemma_flatten_contains<A>(runs: Seq<Seq<A>>, x: A)
    ensures
        runs.flatten().contains(x) <==> exists|i: int|
            0 <= i < runs.len() && (#[trigger] runs[i]).contains(x),
    decreases runs.len(),
{
    if runs.len() > 0 {
        let rest = runs.drop_last();
        let last = runs.last();
        lemma_flatten_contains(rest, x);
        assert(runs =~= rest.push(last));
        rest.lemma_flatten_push(last);
        let all = runs.flatten();
        if all.contains(x) {
            let k = choose|k: int| 0 <= k < all.len() && all[k] == x;
            if k < rest.flatten().len() {
                assert(rest.flatten()[k] == x);
                let i = choose|i: int| 0 <= i < rest.len() && (#[trigger] rest[i]).contains(x);
                assert(runs[i].contains(x));
            } else {
                assert(last[k - rest.flatten().len()] == x);
                assert(runs[runs.len() - 1].contains(x));
            }
        }
        if exists|i: int| 0 <= i < runs.len() && (#[trigger] runs[i]).contains(x) {
            let i = choose|i: int| 0 <= i < runs.len() && (#[trigger] runs[i]).contains(x);
            if i < rest.len() {
                assert(rest[i].contains(x));
                let k = choose|k: int| 0 <= k < rest.flatten().len() && rest.flatten()[k] == x;
                assert(all[k] == x);
            } else {
                let k = choose|k: int| 0 <= k < last.len() && last[k] == x;
                assert(all[rest.flatten().len() + k] == x);
            }
        }
    }
}

/// A record is among the merged functions exactly if it is among the functions of one
/// of the bundles.
pub proof fn lemma_merged_functions(bundles: Seq<DataModel>, function: FunctionModel)
    ensures
        merged(bundles).functions.contains(function) <==> exists|i: int|
            0 <= i < bundles.len() && (#[trigger] bundles[i]).functions.contains(function),
{
    let runs = bundles.map_values(|d: DataModel| d.functions);
    lemma_flatten_contains(runs, function);
    if exists|i: int| 0 <= i < runs.len() && (#[trigger] runs[i]).contains(function) {
        let i = choose|i: int| 0 <= i < runs.len() && (#[trigger] runs[i]).contains(function);
        assert(bundles[i].functions.contains(function));
    }
    if exists|i: int|
        0 <= i < bundles.len() && (#[trigger] bundles[i]).functions.contains(function) {
        let i = choose|i: int|
            0 <= i < bundles.len() && (#[trigger] bundles[i]).functions.contains(function);
        assert(runs[i].contains(function));
    }
}

/// A type is among the merged types exactly if it is among the types of one of the
/// bundles.
pub proof fn lemma_merged_types(bundles: Seq<DataModel>, ty: ComputedTypeModel)
    ensures
        merged(bundles).types.contains(ty) <==> exists|i: int|
            0 <= i < bundles.len() && (#[trigger] bundles[i]).types.contains(ty),
{
    let runs = bundles.map_values(|d: DataModel| d.types);
    lemma_flatten_contains(runs, ty);
    if exists|i: int| 0 <= i < runs.len() && (#[trigger] runs[i]).contains(ty) {
        let i = choose|i: int| 0 <= i < runs.len() && (#[trigger] runs[i]).contains(ty);
        assert(bundles[i].types.contains(ty));
    }
    if exists|i: int| 0 <= i < bundles.len() && (#[trigger] bundles[i]).types.contains(ty) {
        let i = choose|i: int|
            0 <= i < bundles.len() && (#[trigger] bundles[i]).types.contains(ty);
        assert(runs[i].contains(ty));
    }
}

/// Merging is a union: what the merge of two bundles holds is what either of them holds,
/// whichever comes first.
pub proof fn lemma_merge_is_union(a: DataModel, b: DataModel)
    ensures
        forall|f: FunctionModel|
            merged(seq![a, b]).functions.contains(f) <==> a.functions.contains(f)
                || b.functions.contains(f),
        forall|t: ComputedTypeModel|
            merged(seq![a, b]).types.contains(t) <==> a.types.contains(t) || b.types.contains(t),
        forall|f: FunctionModel|
            merged(seq![a, b]).functions.contains(f) <==> merged(seq![b, a]).functions.contains(f),
        forall|t: ComputedTypeModel|
            merged(seq![a, b]).types.contains(t) <==> merged(seq![b, a]).types.contains(t),
{
    let ab = seq![a, b];
    let ba = seq![b, a];
    assert forall|f: FunctionModel|
        merged(seq![a, b]).functions.contains(f) <==> a.functions.contains(f)
            || b.functions.contains(f) by {
        lemma_merged_functions(ab, f);
    }
    assert forall|f: FunctionModel|
        merged(seq![a, b]).functions.contains(f) <==> merged(seq![b, a]).functions.contains(
            f,
        ) by {
        lemma_merged_functions(ab, f);
        lemma_merged_functions(ba, f);
    }
    assert forall|t: ComputedTypeModel|
        merged(seq![a, b]).types.contains(t) <==> a.types.contains(t) || b.types.contains(t) by {
        lemma_merged_types(ab, t);
    }
    assert forall|t: ComputedTypeModel|
        merged(seq![a, b]).types.contains(t) <==> merged(seq![b, a]).types.contains(t) by {
        lemma_merged_types(ab, t);
        lemma_merged_types(ba, t);
    }
}

} // verus!
