//! The signature store and the matching procedure.

use crate::constraint::disambiguate;
use crate::guid::FunctionGUID;
use crate::index::{
    absorb_types_by_guid, absorb_types_by_name, clone_function_buckets, clone_types_by_guid,
    clone_types_by_name, function_bucket, into_function_buckets,
    function_buckets, new_function_buckets, new_types_by_guid, new_types_by_name,
    set_function_bucket, set_type_by_guid, set_type_by_name, take_function_bucket,
    types_by_guid, types_by_name,
};
use crate::resolver::{
    closed, holds_what_follows, keyed_by_own_hash, lemma_closed_holds_what_is_reached,
    lemma_resolve_members, lemma_resolve_members_closed, lemma_resolve_members_within,
    lemma_settled_members_are_fixed, lemma_settled_stays, reaches, registered_within,
    resolve_members, settled, told_apart,
};
use crate::signature::{
    bundles_model, call_sites_model, computed_types_model, functions_model, merged,
    CallSiteConstraint, CallSiteModel, ComputedType, ComputedTypeModel, Data, Function,
    FunctionModel,
};
use crate::types::{clone_name, members_model, ClassModel, Member, Type, TypeClass, TypeModel};
use crate::universe::{DefinitionModel, TypeUniverse};
use dashmap::DashMap;
use vstd::prelude::*;

verus! {

/// What can be tuned about matching.
#[derive(Clone, Copy, Debug)]
pub struct MatcherSettings {
    /// A function whose address span is below this length is trusted on call-site
    /// evidence only.
    pub trivial_function_len: u64,
}

/// The signatures of one platform, indexed for lookup.
#[derive(Debug)]
pub struct Matcher {
    /// What can be tuned about matching with this store.
    pub settings: MatcherSettings,
    /// The signatures by function hash. Several signatures may share a hash.
    pub functions: DashMap<u128, Vec<Function>>,
    /// The types by type hash.
    pub types: DashMap<u128, Type>,
    /// The types that have a name, by that name.
    pub named_types: DashMap<String, Type>,
}

impl Matcher {
    /// The signatures of the store, grouped by function hash.
    pub open spec fn functions_by_guid(&self) -> Map<u128, Seq<FunctionModel>> {
        function_buckets(self.functions)
    }

    /// The types of the store by type hash.
    pub open spec fn types_by_guid(&self) -> Map<u128, TypeModel> {
        types_by_guid(self.types)
    }

    /// The types of the store by name.
    pub open spec fn types_by_name(&self) -> Map<Seq<char>, TypeModel> {
        types_by_name(self.named_types)
    }

    /// The store is well formed: it holds finitely many entries, and under every function
    /// hash at least one signature, each with that hash.
    pub open spec fn wf(&self) -> bool {
        &&& self.functions_by_guid().dom().finite()
        &&& self.types_by_guid().dom().finite()
        &&& self.types_by_name().dom().finite()
        &&& buckets_wf(self.functions_by_guid())
    }
}

/// What a caller knows of the function that it wants matched.
#[derive(Debug)]
pub struct SubjectFunction {
    /// The distance between the function's lowest and highest address.
    pub address_span: u64,
    /// The function's content hash, where one could be computed.
    pub guid: Option<FunctionGUID>,
    /// What was observed at the function's call instructions.
    pub call_sites: Vec<CallSiteConstraint>,
    /// The result of an earlier match of the function, where the caller remembers one:
    /// the record that matched, or that none did.
    pub remembered: Option<Option<Function>>,
}

/// What a `SubjectFunction` stands for.
pub struct SubjectModel {
    pub address_span: u64,
    pub guid: Option<FunctionGUID>,
    pub call_sites: Seq<CallSiteModel>,
    pub remembered: Option<Option<FunctionModel>>,
}

impl View for SubjectFunction {
    type V = SubjectModel;

    open spec fn view(&self) -> SubjectModel {
        SubjectModel {
            address_span: self.address_span,
            guid: self.guid,
            call_sites: call_sites_model(self.call_sites@),
            remembered: match self.remembered {
                Some(result) => Some(function_model(result)),
                None => None,
            },
        }
    }
}

/// The records with the function hash `guid`.
pub open spec fn has_hash(guid: u128) -> spec_fn(FunctionModel) -> bool {
    |f: FunctionModel| f.guid.guid == guid
}

/// The functions grouped by their hash: under each hash that occurs, the records with
/// that hash, in their order.
pub open spec fn grouped(functions: Seq<FunctionModel>) -> Map<u128, Seq<FunctionModel>> {
    Map::new(
        |g: u128|
            exists|i: int| 0 <= i < functions.len() && (#[trigger] functions[i]).guid.guid == g,
        |g: u128| functions.filter(has_hash(g)),
    )
}

/// The types by the hash under which the bundle lists them. Of two types listed under
/// one hash the later one stays.
pub open spec fn types_table(types: Seq<ComputedTypeModel>) -> Map<u128, TypeModel>
    decreases types.len(),
{
    if types.len() == 0 {
        Map::empty()
    } else {
        types_table(types.drop_last()).insert(types.last().guid.guid, types.last().ty)
    }
}

/// The named types by their name. Of two types with one name the later one stays.
pub open spec fn names_table(types: Seq<ComputedTypeModel>) -> Map<Seq<char>, TypeModel>
    decreases types.len(),
{
    if types.len() == 0 {
        Map::empty()
    } else {
        match types.last().ty.name {
            Some(name) => names_table(types.drop_last()).insert(name, types.last().ty),
            None => names_table(types.drop_last()),
        }
    }
}

/// The records stored under `guid`; none where there is no such key.
pub open spec fn bucket_or_empty(buckets: Map<u128, Seq<FunctionModel>>, guid: u128) -> Seq<
    FunctionModel,
> {
    if buckets.contains_key(guid) {
        buckets[guid]
    } else {
        Seq::empty()
    }
}

/// Joining keeps every record: under each hash a record stands as often as it stands there
/// in the two stores together.
pub proof fn lemma_joined_counts(
    ours: Map<u128, Seq<FunctionModel>>,
    theirs: Map<u128, Seq<FunctionModel>>,
    guid: u128,
    f: FunctionModel,
)
    ensures
        bucket_or_empty(joined_buckets(ours, theirs), guid).to_multiset().count(f)
            == bucket_or_empty(ours, guid).to_multiset().count(f) + bucket_or_empty(
            theirs,
            guid,
        ).to_multiset().count(f),
{
    broadcast use vstd::multiset::group_multiset_axioms;

    let a = bucket_or_empty(ours, guid);
    let b = bucket_or_empty(theirs, guid);
    vstd::seq_lib::lemma_multiset_commutative(a, b);
    assert(bucket_or_empty(joined_buckets(ours, theirs), guid) =~= a + b);
}

/// Two stores' records joined: under each hash of either store, the records of the first
/// store followed by those of the second.
pub open spec fn joined_buckets(
    ours: Map<u128, Seq<FunctionModel>>,
    theirs: Map<u128, Seq<FunctionModel>>,
) -> Map<u128, Seq<FunctionModel>> {
    Map::new(
        |g: u128| ours.contains_key(g) || theirs.contains_key(g),
        |g: u128| bucket_or_empty(ours, g) + bucket_or_empty(theirs, g),
    )
}

/// Joining loses no record and adds none: a record stands under a hash of the joined
/// store exactly if it stands under that hash in one of the two stores. And joining
/// well-formed stores gives a well-formed store.
pub proof fn lemma_joined_buckets(
    ours: Map<u128, Seq<FunctionModel>>,
    theirs: Map<u128, Seq<FunctionModel>>,
)
    ensures
        forall|g: u128, f: FunctionModel|
            bucket_or_empty(#[trigger] joined_buckets(ours, theirs), g).contains(f) <==> (
            #[trigger] bucket_or_empty(ours, g).contains(f)) || bucket_or_empty(theirs, g).contains(
                f,
            ),
        ours.dom().finite() && theirs.dom().finite() ==> joined_buckets(ours, theirs).dom().finite(),
        buckets_wf(ours) && buckets_wf(theirs) ==> buckets_wf(joined_buckets(ours, theirs)),
{
    broadcast use vstd::seq_lib::group_seq_properties;

    let joined = joined_buckets(ours, theirs);
    assert(joined.dom() =~= ours.dom().union(theirs.dom()));
    if buckets_wf(ours) && buckets_wf(theirs) {
        assert forall|g: u128| #[trigger] joined.contains_key(g) implies joined[g].len() > 0
            && forall|i: int| 0 <= i < joined[g].len() ==> (#[trigger] joined[g][i]).guid.guid == g by {
            let a = bucket_or_empty(ours, g);
            let b = bucket_or_empty(theirs, g);
            assert(ours.contains_key(g) || theirs.contains_key(g));
            assert forall|i: int| 0 <= i < joined[g].len() implies (#[trigger] joined[g][i]).guid.guid
                == g by {
                if i < a.len() {
                    assert(joined[g][i] == a[i]);
                    assert(ours.contains_key(g));
                } else {
                    assert(joined[g][i] == b[i - a.len()]);
                    assert(theirs.contains_key(g));
                }
            }
        }
    }
}

/// Under every hash stands at least one record, and each record stands under its own
/// hash.
pub open spec fn buckets_wf(buckets: Map<u128, Seq<FunctionModel>>) -> bool {
    forall|g: u128| #[trigger]
        buckets.contains_key(g) ==> {
            &&& buckets[g].len() > 0
            &&& forall|i: int| 0 <= i < buckets[g].len() ==> (#[trigger] buckets[g][i]).guid.guid == g
        }
}

proof fn lemma_grouped_push(functions: Seq<FunctionModel>, function: FunctionModel)
    ensures
        grouped(functions.push(function)) == grouped(functions).insert(
            function.guid.guid,
            bucket_or_empty(grouped(functions), function.guid.guid).push(function),
        ),
{
    broadcast use Seq::lemma_filter_push;

    let more = functions.push(function);
    let g = function.guid.guid;
    let expected = grouped(functions).insert(g, bucket_or_empty(grouped(functions), g).push(function));
    assert forall|k: u128| grouped(more).contains_key(k) == expected.contains_key(k) by {
        if grouped(more).contains_key(k) {
            let i = choose|i: int| 0 <= i < more.len() && (#[trigger] more[i]).guid.guid == k;
            if i < functions.len() {
                assert(functions[i].guid.guid == k);
            }
        }
        if expected.contains_key(k) {
            if k == g {
                assert(more[functions.len() as int].guid.guid == k);
            } else {
                let i = choose|i: int|
                    0 <= i < functions.len() && (#[trigger] functions[i]).guid.guid == k;
                assert(more[i].guid.guid == k);
            }
        }
    }
    assert forall|k: u128| grouped(more).contains_key(k) implies grouped(more)[k] == expected[k] by {
        assert(more.filter(has_hash(k)) == if has_hash(k)(function) {
            functions.filter(has_hash(k)).push(function)
        } else {
            functions.filter(has_hash(k))
        });
        if k == g && !grouped(functions).contains_key(g) {
            assert forall|i: int| 0 <= i < functions.len() implies !has_hash(g)(
                #[trigger] functions[i],
            ) by {}
            functions.lemma_all_neg_filter_empty(has_hash(g));
        }
    }
    assert(grouped(more) =~= expected);
}

/// Grouping keeps every record: a record stands under its own hash as often as it occurs
/// among the functions, and under no other hash.
pub proof fn lemma_grouped_counts(functions: Seq<FunctionModel>, guid: u128, f: FunctionModel)
    ensures
        bucket_or_empty(grouped(functions), guid).to_multiset().count(f) == if f.guid.guid
            == guid {
            functions.to_multiset().count(f)
        } else {
            0
        },
    decreases functions.len(),
{
    broadcast use {
        Seq::lemma_filter_push,
        vstd::seq_lib::to_multiset_build,
        vstd::multiset::group_multiset_axioms,
    };

    let bucket = bucket_or_empty(grouped(functions), guid);
    if !grouped(functions).contains_key(guid) {
        assert forall|i: int| 0 <= i < functions.len() implies !has_hash(guid)(
            #[trigger] functions[i],
        ) by {}
        functions.lemma_all_neg_filter_empty(has_hash(guid));
    }
    assert(bucket =~= functions.filter(has_hash(guid)));
    if functions.len() == 0 {
        reveal(Seq::filter);
        assert(functions.to_multiset() =~= vstd::multiset::Multiset::<FunctionModel>::empty()) by {
            functions.to_multiset_ensures();
            assert(functions.to_multiset().len() == 0);
        }
        assert(bucket.to_multiset() =~= vstd::multiset::Multiset::<FunctionModel>::empty()) by {
            bucket.to_multiset_ensures();
            assert(bucket.len() == 0);
        }
    } else {
        let rest = functions.drop_last();
        let last = functions.last();
        lemma_grouped_counts(rest, guid, f);
        if !grouped(rest).contains_key(guid) {
            assert forall|i: int| 0 <= i < rest.len() implies !has_hash(guid)(#[trigger] rest[i]) by {}
            rest.lemma_all_neg_filter_empty(has_hash(guid));
        }
        assert(bucket_or_empty(grouped(rest), guid) =~= rest.filter(has_hash(guid)));
        assert(functions =~= rest.push(last));
        assert(functions.filter(has_hash(guid)) == if has_hash(guid)(last) {
            rest.filter(has_hash(guid)).push(last)
        } else {
            rest.filter(has_hash(guid))
        });
        assert(functions.to_multiset() =~= rest.to_multiset().insert(last));
    }
}

/// Grouping puts every record under its own hash, and leaves no hash without a record.
pub proof fn lemma_grouped_buckets(functions: Seq<FunctionModel>, guid: u128)
    requires
        grouped(functions).contains_key(guid),
    ensures
        grouped(functions)[guid].len() > 0,
        forall|i: int|
            0 <= i < grouped(functions)[guid].len() ==> (#[trigger] grouped(
                functions,
            )[guid][i]).guid.guid == guid,
{
    broadcast use vstd::seq_lib::group_filter_ensures;

    let bucket = functions.filter(has_hash(guid));
    let i = choose|i: int| 0 <= i < functions.len() && (#[trigger] functions[i]).guid.guid == guid;
    assert(has_hash(guid)(functions[i]));
    assert(bucket.contains(functions[i]));
    assert forall|j: int| 0 <= j < bucket.len() implies (#[trigger] bucket[j]).guid.guid == guid by {
        assert(has_hash(guid)(bucket[j]));
    }
}

impl Default for MatcherSettings {
    fn default() -> (settings: Self)
        ensures
            settings.trivial_function_len == MatcherSettings::TRIVIAL_FUNCTION_LEN_DEFAULT,
    {
        MatcherSettings { trivial_function_len: MatcherSettings::TRIVIAL_FUNCTION_LEN_DEFAULT }
    }
}

impl MatcherSettings {
    /// The length below which a function counts as trivial, unless the setting says otherwise.
    pub const TRIVIAL_FUNCTION_LEN_DEFAULT: u64 = 20;

    /// The key under which the length is kept in a settings store.
    pub const TRIVIAL_FUNCTION_LEN_SETTING: &'static str = "analysis.warp.trivial_function_len";

    /// The entry that records these settings in a settings store: its key and its value.
    pub fn write_settings(&self) -> (entry: (&'static str, u64))
        ensures
            entry.0@ == MatcherSettings::TRIVIAL_FUNCTION_LEN_SETTING@,
            entry.1 == self.trivial_function_len,
    {
        (MatcherSettings::TRIVIAL_FUNCTION_LEN_SETTING, self.trivial_function_len)
    }

    /// The settings that a settings store describes: `stored` is the value that it holds
    /// under `TRIVIAL_FUNCTION_LEN_SETTING`, if it holds one. Without one the default
    /// stands.
    pub fn from_view(stored: Option<u64>) -> (settings: Self)
        ensures
            settings.trivial_function_len == match stored {
                Some(len) => len,
                None => MatcherSettings::TRIVIAL_FUNCTION_LEN_DEFAULT,
            },
    {
        let mut settings = MatcherSettings::default();
        if let Some(len) = stored {
            settings.trivial_function_len = len;
        }
        settings
    }
}

impl Matcher {
    /// The store that holds the records of `data`.
    pub fn from_data(data: Data) -> (matcher: Matcher)
        ensures
            matcher.wf(),
            matcher.functions_by_guid() == grouped(data@.functions),
            matcher.types_by_guid() == types_table(data@.types),
            matcher.types_by_name() == names_table(data@.types),
            matcher.settings.trivial_function_len == MatcherSettings::TRIVIAL_FUNCTION_LEN_DEFAULT,
    {
        let ghost model = data@;
        let Data { functions: records, types: listing } = data;
        let mut functions = new_function_buckets();
        for function in it: records
            invariant
                it.seq() == records@,
                model.functions == functions_model(records@),
                function_buckets(functions) == grouped(model.functions.take(it.index() as int)),
                function_buckets(functions).dom().finite(),
        {
            proof {
                let i = it.index() as int;
                assert(model.functions.take(i + 1) =~= model.functions.take(i).push(
                    model.functions[i],
                ));
                lemma_grouped_push(model.functions.take(i), model.functions[i]);
            }
            let guid = function.guid.guid;
            let ghost before = function_buckets(functions);
            let mut bucket = match take_function_bucket(&mut functions, guid) {
                Some(bucket) => bucket,
                None => Vec::new(),
            };
            let ghost taken = functions_model(bucket@);
            let ghost record = function@;
            assert(taken =~= bucket_or_empty(before, guid));
            bucket.push(function);
            assert(functions_model(bucket@) =~= taken.push(record));
            set_function_bucket(&mut functions, guid, bucket);
            assert(function_buckets(functions) =~= before.insert(
                guid,
                bucket_or_empty(before, guid).push(record),
            ));
        }
        assert(model.functions.take(records@.len() as int) =~= model.functions);
        let mut types = new_types_by_guid();
        let mut named_types = new_types_by_name();
        for listed in it: listing
            invariant
                it.seq() == listing@,
                model.types == computed_types_model(listing@),
                types_by_guid(types) == types_table(model.types.take(it.index() as int)),
                types_by_name(named_types) == names_table(model.types.take(it.index() as int)),
                types_by_guid(types).dom().finite(),
                types_by_name(named_types).dom().finite(),
        {
            proof {
                let k = it.index() as int;
                assert(model.types.take(k + 1).drop_last() =~= model.types.take(k));
            }
            let ComputedType { guid, ty } = listed;
            set_type_by_guid(&mut types, guid.guid, ty.clone());
            if let Some(name) = clone_name(&ty.name) {
                set_type_by_name(&mut named_types, name, ty);
            }
        }
        assert(model.types.take(listing@.len() as int) =~= model.types);
        let matcher = Matcher { settings: MatcherSettings::default(), functions, types, named_types };
        proof {
            assert forall|g: u128| #[trigger] matcher.functions_by_guid().contains_key(g) implies {
                &&& matcher.functions_by_guid()[g].len() > 0
                &&& forall|i: int|
                    0 <= i < matcher.functions_by_guid()[g].len() ==> (
                    #[trigger] matcher.functions_by_guid()[g][i]).guid.guid == g
            } by {
                lemma_grouped_buckets(model.functions, g);
            }
        }
        matcher
    }
}

/// What an optional record stands for.
pub open spec fn function_model(function: Option<Function>) -> Option<FunctionModel> {
    match function {
        Some(f) => Some(f@),
        None => None,
    }
}

/// The record that matches the subject when it is matched afresh, if one does.
///
/// Without a hash for the subject, or without a record under that hash, nothing
/// matches. A single record under the hash matches a subject that is not trivial, which
/// is one whose address span reaches `trivial_function_len`. In every other case the
/// call-site evidence decides between the records under the hash.
pub open spec fn matched(
    functions: Map<u128, Seq<FunctionModel>>,
    trivial_function_len: u64,
    subject: SubjectModel,
) -> Option<FunctionModel> {
    match subject.guid {
        None => None,
        Some(guid) => if !functions.contains_key(guid.guid) {
            None
        } else {
            let candidates = functions[guid.guid];
            if candidates.len() == 1 && subject.address_span >= trivial_function_len {
                Some(candidates[0])
            } else {
                match disambiguate(subject.call_sites, candidates) {
                    Some(i) => Some(candidates[i]),
                    None => None,
                }
            }
        },
    }
}

/// The universe after the types of a function type's output members, and then those of
/// its input members, have been resolved in their order. Another type changes nothing.
pub open spec fn resolve_signature(
    definitions: Seq<DefinitionModel>,
    types: Map<u128, TypeModel>,
    names: Map<Seq<char>, TypeModel>,
    ty: TypeModel,
) -> Seq<DefinitionModel> {
    match ty.class {
        ClassModel::Function { out_members, in_members } => resolve_members(
            resolve_members(
                definitions,
                types,
                names,
                types.dom(),
                names.dom(),
                out_members,
                out_members.len(),
            ),
            types,
            names,
            types.dom(),
            names.dom(),
            in_members,
            in_members.len(),
        ),
        _ => definitions,
    }
}

/// Nothing is left to register for the types of a function type's members. Of another
/// type this holds always.
pub open spec fn signature_settled(definitions: Seq<DefinitionModel>, ty: TypeModel) -> bool {
    match ty.class {
        ClassModel::Function { out_members, in_members } => {
            &&& forall|i: int|
                0 <= i < out_members.len() ==> settled(definitions, (#[trigger] out_members[i]).ty)
            &&& forall|i: int|
                0 <= i < in_members.len() ==> settled(definitions, (#[trigger] in_members[i]).ty)
        },
        _ => true,
    }
}

/// Resolving a signature keeps what is registered and leaves nothing to register for
/// its types, so that to resolve it once more changes nothing.
pub proof fn lemma_resolve_signature(
    definitions: Seq<DefinitionModel>,
    types: Map<u128, TypeModel>,
    names: Map<Seq<char>, TypeModel>,
    ty: TypeModel,
)
    requires
        types.dom().finite(),
        names.dom().finite(),
    ensures
        definitions.is_prefix_of(resolve_signature(definitions, types, names, ty)),
        signature_settled(resolve_signature(definitions, types, names, ty), ty),
        resolve_signature(resolve_signature(definitions, types, names, ty), types, names, ty)
            == resolve_signature(definitions, types, names, ty),
{
    let once = resolve_signature(definitions, types, names, ty);
    match ty.class {
        ClassModel::Function { out_members, in_members } => {
            let middle = resolve_members(
                definitions,
                types,
                names,
                types.dom(),
                names.dom(),
                out_members,
                out_members.len(),
            );
            lemma_resolve_members(
                definitions,
                types,
                names,
                types.dom(),
                names.dom(),
                out_members,
                out_members.len(),
            );
            lemma_resolve_members(
                middle,
                types,
                names,
                types.dom(),
                names.dom(),
                in_members,
                in_members.len(),
            );
            assert forall|i: int| 0 <= i < out_members.len() implies settled(
                once,
                (#[trigger] out_members[i]).ty,
            ) by {
                lemma_settled_stays(middle, once, out_members[i].ty);
            }
            lemma_settled_members_are_fixed(
                once,
                types,
                names,
                types.dom(),
                names.dom(),
                out_members,
                out_members.len(),
            );
            lemma_settled_members_are_fixed(
                once,
                types,
                names,
                types.dom(),
                names.dom(),
                in_members,
                in_members.len(),
            );
        },
        _ => {},
    }
}

/// Resolving a signature keeps a closed universe closed, in a store that lists every
/// type under its own hash.
pub proof fn lemma_resolve_signature_closed(
    definitions: Seq<DefinitionModel>,
    types: Map<u128, TypeModel>,
    names: Map<Seq<char>, TypeModel>,
    ty: TypeModel,
)
    requires
        types.dom().finite(),
        names.dom().finite(),
        keyed_by_own_hash(types),
        closed(definitions, types, names),
    ensures
        closed(resolve_signature(definitions, types, names, ty), types, names),
{
    if let ClassModel::Function { out_members, in_members } = ty.class {
        let middle = resolve_members(
            definitions,
            types,
            names,
            types.dom(),
            names.dom(),
            out_members,
            out_members.len(),
        );
        lemma_resolve_members_closed(
            definitions,
            types,
            names,
            types.dom(),
            names.dom(),
            out_members,
            out_members.len(),
        );
        lemma_resolve_members_closed(
            middle,
            types,
            names,
            types.dom(),
            names.dom(),
            in_members,
            in_members.len(),
        );
    }
}

/// When a record has matched, every type of its signature is registered. In a store that
/// lists every type under its own hash, and among types whose hashes tell them apart,
/// resolving a signature in the empty universe leaves nothing to register for any type
/// that a member of the signature reaches through what types embed and what referrers
/// name, and registers every referrer among them under the referrer's own identifier
/// and name.
pub proof fn lemma_signature_registers_what_is_reached(
    types: Map<u128, TypeModel>,
    names: Map<Seq<char>, TypeModel>,
    all: Set<TypeModel>,
    ty: TypeModel,
    member: TypeModel,
    reached: TypeModel,
    n: nat,
)
    requires
        types.dom().finite(),
        names.dom().finite(),
        keyed_by_own_hash(types),
        holds_what_follows(all, types, names),
        told_apart(all),
        all.contains(ty),
        ty.class matches ClassModel::Function { out_members, in_members } && {
            ||| exists|i: int| 0 <= i < out_members.len() && (#[trigger] out_members[i]).ty == member
            ||| exists|i: int| 0 <= i < in_members.len() && (#[trigger] in_members[i]).ty == member
        },
        reaches(types, names, member, reached, n),
    ensures
        settled(resolve_signature(Seq::<DefinitionModel>::empty(), types, names, ty), reached),
        reached.class is Referrer ==> resolve_signature(
            Seq::<DefinitionModel>::empty(),
            types,
            names,
            ty,
        ).contains(crate::resolver::definition_of(reached)),
{
    let nothing = Seq::<DefinitionModel>::empty();
    let result = resolve_signature(nothing, types, names, ty);
    let out_members = ty.class->Function_out_members;
    let in_members = ty.class->Function_in_members;
    let middle = resolve_members(
        nothing,
        types,
        names,
        types.dom(),
        names.dom(),
        out_members,
        out_members.len(),
    );
    lemma_resolve_signature_closed(nothing, types, names, ty);
    lemma_resolve_signature(nothing, types, names, ty);
    assert(crate::resolver::follows_within(all, types, names, ty));
    lemma_resolve_members_within(
        nothing,
        types,
        names,
        types.dom(),
        names.dom(),
        out_members,
        out_members.len(),
        all,
    );
    lemma_resolve_members_within(
        middle,
        types,
        names,
        types.dom(),
        names.dom(),
        in_members,
        in_members.len(),
        all,
    );
    lemma_closed_holds_what_is_reached(result, types, names, all, member, reached, n);
}

/// Trivial-function gating: of a subject without call sites, for whose hash the store
/// has exactly one record, that record matches if the subject is not trivial, and
/// nothing matches if it is.
pub proof fn lemma_trivial_function_gating(
    functions: Map<u128, Seq<FunctionModel>>,
    trivial_function_len: u64,
    subject: SubjectModel,
)
    requires
        subject.guid matches Some(guid) && functions.contains_key(guid.guid)
            && functions[guid.guid].len() == 1,
        subject.call_sites.len() == 0,
    ensures
        subject.address_span < trivial_function_len ==> matched(
            functions,
            trivial_function_len,
            subject,
        ) is None,
        subject.address_span >= trivial_function_len ==> matched(
            functions,
            trivial_function_len,
            subject,
        ) == Some(functions[subject.guid->0.guid][0]),
{
}

/// In a store whose records stand under their own hash, the record that matches has the
/// subject's hash.
pub proof fn lemma_matched_hash(
    functions: Map<u128, Seq<FunctionModel>>,
    trivial_function_len: u64,
    subject: SubjectModel,
)
    requires
        forall|g: u128| #[trigger]
            functions.contains_key(g) ==> forall|i: int|
                0 <= i < functions[g].len() ==> (#[trigger] functions[g][i]).guid.guid == g,
    ensures
        matched(functions, trivial_function_len, subject) matches Some(f) ==> Some(f.guid)
            == subject.guid,
{
    if let Some(f) = matched(functions, trivial_function_len, subject) {
        let guid = subject.guid->0;
        let candidates = functions[guid.guid];
        assert(functions.contains_key(guid.guid));
        if candidates.len() == 1 && subject.address_span >= trivial_function_len {
            assert(candidates[0].guid.guid == guid.guid);
        } else {
            let i = disambiguate(subject.call_sites, candidates)->0;
            crate::constraint::lemma_disambiguate_in_range(subject.call_sites, candidates);
            assert(candidates[i].guid.guid == guid.guid);
        }
    }
}

/// The table of types has finitely many keys, and a hash is one of them exactly if a
/// type is listed under it.
pub proof fn lemma_types_table_keys(types: Seq<ComputedTypeModel>, guid: u128)
    ensures
        types_table(types).dom().finite(),
        types_table(types).contains_key(guid) <==> exists|i: int|
            0 <= i < types.len() && (#[trigger] types[i]).guid.guid == guid,
    decreases types.len(),
{
    if types.len() > 0 {
        let rest = types.drop_last();
        lemma_types_table_keys(rest, guid);
        if types_table(types).contains_key(guid) {
            if types.last().guid.guid == guid {
                assert(types[types.len() - 1].guid.guid == guid);
            } else {
                let i = choose|i: int| 0 <= i < rest.len() && (#[trigger] rest[i]).guid.guid == guid;
                assert(types[i].guid.guid == guid);
            }
        }
        if exists|i: int| 0 <= i < types.len() && (#[trigger] types[i]).guid.guid == guid {
            let i = choose|i: int| 0 <= i < types.len() && (#[trigger] types[i]).guid.guid == guid;
            if i < rest.len() {
                assert(rest[i].guid.guid == guid);
            }
        }
    }
}

/// Last write wins: a listed type after which no type is listed under the same hash is
/// the type that the table holds under that hash.
pub proof fn lemma_types_table_last(types: Seq<ComputedTypeModel>, i: int)
    requires
        0 <= i < types.len(),
        forall|j: int| i < j < types.len() ==> (#[trigger] types[j]).guid.guid != types[i].guid.guid,
    ensures
        types_table(types).contains_key(types[i].guid.guid),
        types_table(types)[types[i].guid.guid] == types[i].ty,
    decreases types.len(),
{
    if i < types.len() - 1 {
        let rest = types.drop_last();
        assert(types[types.len() - 1].guid.guid != types[i].guid.guid);
        assert(rest[i] == types[i]);
        assert forall|j: int| i < j < rest.len() implies (#[trigger] rest[j]).guid.guid
            != rest[i].guid.guid by {
            assert(rest[j] == types[j]);
        }
        lemma_types_table_last(rest, i);
    }
}

/// The table of names has finitely many keys, and a name is one of them exactly if a
/// listed type has it.
pub proof fn lemma_names_table_keys(types: Seq<ComputedTypeModel>, name: Seq<char>)
    ensures
        names_table(types).dom().finite(),
        names_table(types).contains_key(name) <==> exists|i: int|
            0 <= i < types.len() && (#[trigger] types[i]).ty.name == Some(name),
    decreases types.len(),
{
    if types.len() > 0 {
        let rest = types.drop_last();
        lemma_names_table_keys(rest, name);
        if names_table(types).contains_key(name) {
            if types.last().ty.name == Some(name) {
                assert(types[types.len() - 1].ty.name == Some(name));
            } else {
                let i = choose|i: int|
                    0 <= i < rest.len() && (#[trigger] rest[i]).ty.name == Some(name);
                assert(types[i].ty.name == Some(name));
            }
        }
        if exists|i: int| 0 <= i < types.len() && (#[trigger] types[i]).ty.name == Some(name) {
            let i = choose|i: int|
                0 <= i < types.len() && (#[trigger] types[i]).ty.name == Some(name);
            if i < rest.len() {
                assert(rest[i].ty.name == Some(name));
            }
        }
    }
}

/// Last write wins: a listed type with a name, after which no listed type has the same
/// name, is the type that the table holds under that name.
pub proof fn lemma_names_table_last(types: Seq<ComputedTypeModel>, i: int)
    requires
        0 <= i < types.len(),
        types[i].ty.name is Some,
        forall|j: int| i < j < types.len() ==> (#[trigger] types[j]).ty.name != types[i].ty.name,
    ensures
        names_table(types).contains_key(types[i].ty.name->0),
        names_table(types)[types[i].ty.name->0] == types[i].ty,
    decreases types.len(),
{
    if i < types.len() - 1 {
        let rest = types.drop_last();
        assert(types[types.len() - 1].ty.name != types[i].ty.name);
        assert(rest[i] == types[i]);
        assert forall|j: int| i < j < rest.len() implies (#[trigger] rest[j]).ty.name
            != rest[i].ty.name by {
            assert(rest[j] == types[j]);
        }
        lemma_names_table_last(rest, i);
    }
}

impl Clone for Matcher {
    fn clone(&self) -> (copy: Self)
        ensures
            copy.settings == self.settings,
            copy.functions_by_guid() == self.functions_by_guid(),
            copy.types_by_guid() == self.types_by_guid(),
            copy.types_by_name() == self.types_by_name(),
            self.wf() ==> copy.wf(),
    {
        Matcher {
            settings: self.settings,
            functions: clone_function_buckets(&self.functions),
            types: clone_types_by_guid(&self.types),
            named_types: clone_types_by_name(&self.named_types),
        }
    }
}

impl Default for Matcher {
    fn default() -> (matcher: Self)
        ensures
            matcher.wf(),
            matcher.functions_by_guid() == Map::<u128, Seq<FunctionModel>>::empty(),
            matcher.types_by_guid() == Map::<u128, TypeModel>::empty(),
            matcher.types_by_name() == Map::<Seq<char>, TypeModel>::empty(),
            matcher.settings.trivial_function_len == MatcherSettings::TRIVIAL_FUNCTION_LEN_DEFAULT,
    {
        Matcher {
            settings: MatcherSettings::default(),
            functions: new_function_buckets(),
            types: new_types_by_guid(),
            named_types: new_types_by_name(),
        }
    }
}

impl Matcher {
    /// The record that matches the subject in this store when it is matched afresh, if
    /// one does.
    pub open spec fn matched(&self, subject: SubjectModel) -> Option<FunctionModel> {
        matched(self.functions_by_guid(), self.settings.trivial_function_len, subject)
    }

    /// The result of matching the subject: the remembered result where there is one, and
    /// else what matches afresh. It is the record that an observer is to be told of.
    pub open spec fn reported(&self, subject: SubjectModel) -> Option<FunctionModel> {
        match subject.remembered {
            Some(result) => result,
            None => self.matched(subject),
        }
    }

    /// The universe after the subject has been matched. Where a record matches afresh,
    /// the types of its signature have been resolved. A remembered result changes
    /// nothing.
    pub open spec fn after_match(
        &self,
        subject: SubjectModel,
        definitions: Seq<DefinitionModel>,
    ) -> Seq<DefinitionModel> {
        match subject.remembered {
            Some(_) => definitions,
            None => match self.matched(subject) {
                Some(f) => resolve_signature(
                    definitions,
                    self.types_by_guid(),
                    self.types_by_name(),
                    f.ty,
                ),
                None => definitions,
            },
        }
    }

    /// Matching is idempotent. What matches afresh depends on the store and the subject
    /// alone, whatever the universe holds. To match the subject afresh once more leaves
    /// the universe as the first match left it, with nothing left to register for the
    /// types of the signature. And to match it with the first result remembered yields
    /// that result and leaves the universe alone.
    pub proof fn lemma_match_twice(&self, subject: SubjectModel, definitions: Seq<DefinitionModel>)
        requires
            self.wf(),
            subject.remembered is None,
        ensures
            self.after_match(subject, self.after_match(subject, definitions)) == self.after_match(
                subject,
                definitions,
            ),
            definitions.is_prefix_of(self.after_match(subject, definitions)),
            self.reported(subject) matches Some(f) ==> signature_settled(
                self.after_match(subject, definitions),
                f.ty,
            ),
            ({
                let again = SubjectModel { remembered: Some(self.reported(subject)), ..subject };
                &&& self.reported(again) == self.reported(subject)
                &&& self.after_match(again, self.after_match(subject, definitions))
                    == self.after_match(subject, definitions)
            }),
    {
        match self.matched(subject) {
            Some(f) => lemma_resolve_signature(
                definitions,
                self.types_by_guid(),
                self.types_by_name(),
                f.ty,
            ),
            None => {},
        }
    }

    /// The store that holds the records of the built-in bundles and, after them, those of
    /// the user's bundles.
    pub fn from_platform(core: Vec<Data>, user: Vec<Data>) -> (matcher: Matcher)
        ensures
            matcher.wf(),
            matcher.functions_by_guid() == grouped(
                merged(bundles_model(core@) + bundles_model(user@)).functions,
            ),
            matcher.types_by_guid() == types_table(
                merged(bundles_model(core@) + bundles_model(user@)).types,
            ),
            matcher.types_by_name() == names_table(
                merged(bundles_model(core@) + bundles_model(user@)).types,
            ),
            matcher.settings.trivial_function_len == MatcherSettings::TRIVIAL_FUNCTION_LEN_DEFAULT,
    {
        let ghost all = bundles_model(core@) + bundles_model(user@);
        let mut bundles = core;
        let mut user = user;
        bundles.append(&mut user);
        assert(bundles_model(bundles@) =~= all);
        Matcher::from_data(Data::merge(bundles.as_slice()))
    }

    /// Takes over every entry of `matcher`. No record is lost: under each function hash
    /// stand the records that this store had under it, followed by those of `matcher`. Where
    /// both stores have a type under one hash, or under one name, that of `matcher` stays.
    pub fn extend_with_matcher(&mut self, matcher: Matcher)
        requires
            old(self).wf(),
            matcher.wf(),
        ensures
            final(self).wf(),
            final(self).settings == old(self).settings,
            final(self).functions_by_guid() == joined_buckets(
                old(self).functions_by_guid(),
                matcher.functions_by_guid(),
            ),
            final(self).types_by_guid() == old(self).types_by_guid().union_prefer_right(
                matcher.types_by_guid(),
            ),
            final(self).types_by_name() == old(self).types_by_name().union_prefer_right(
                matcher.types_by_name(),
            ),
    {
        let ghost ours = self.functions_by_guid();
        let ghost theirs = matcher.functions_by_guid();
        proof {
            assert(self.types_by_guid().union_prefer_right(matcher.types_by_guid()).dom()
                =~= self.types_by_guid().dom().union(matcher.types_by_guid().dom()));
            assert(self.types_by_name().union_prefer_right(matcher.types_by_name()).dom()
                =~= self.types_by_name().dom().union(matcher.types_by_name().dom()));
        }
        absorb_types_by_guid(&mut self.types, matcher.types);
        absorb_types_by_name(&mut self.named_types, matcher.named_types);
        let entries = into_function_buckets(matcher.functions);
        let ghost keys = entries@.map_values(|e: (u128, Vec<Function>)| e.0);
        assert(joined_buckets(ours, theirs.restrict(keys.take(0).to_set())) =~= ours);
        for entry in it: entries
            invariant
                it.seq() == entries@,
                keys == entries@.map_values(|e: (u128, Vec<Function>)| e.0),
                forall|i: int, j: int|
                    0 <= i < j < entries@.len() ==> (#[trigger] entries@[i]).0 != (
                    #[trigger] entries@[j]).0,
                forall|i: int|
                    0 <= i < entries@.len() ==> theirs.contains_key((#[trigger] entries@[i]).0)
                        && theirs[entries@[i].0] == functions_model(entries@[i].1@),
                self.settings == old(self).settings,
                self.types_by_guid() == old(self).types_by_guid().union_prefer_right(
                    matcher.types_by_guid(),
                ),
                self.types_by_name() == old(self).types_by_name().union_prefer_right(
                    matcher.types_by_name(),
                ),
                self.functions_by_guid() == joined_buckets(
                    ours,
                    theirs.restrict(keys.take(it.index() as int).to_set()),
                ),
        {
            let ghost k = it.index() as int;
            let ghost seen = theirs.restrict(keys.take(k).to_set());
            let (guid, mut more) = entry;
            proof {
                assert(keys[k] == guid);
                if keys.take(k).to_set().contains(guid) {
                    let j = choose|j: int| 0 <= j < k && keys.take(k)[j] == guid;
                    assert(entries@[j].0 == entries@[k].0);
                }
                assert(keys.take(k + 1) =~= keys.take(k).push(guid));
                keys.take(k).lemma_push_to_set_commute(guid);
            }
            let mut bucket = match take_function_bucket(&mut self.functions, guid) {
                Some(bucket) => bucket,
                None => Vec::new(),
            };
            let ghost kept = functions_model(bucket@);
            assert(kept =~= bucket_or_empty(ours, guid));
            let ghost added = functions_model(more@);
            bucket.append(&mut more);
            assert(functions_model(bucket@) =~= kept + added);
            set_function_bucket(&mut self.functions, guid, bucket);
            assert(self.functions_by_guid() =~= joined_buckets(
                ours,
                theirs.restrict(keys.take(k + 1).to_set()),
            ));
        }
        proof {
            assert(keys.take(entries@.len() as int) =~= keys);
            assert forall|g: u128| theirs.contains_key(g) implies keys.to_set().contains(g) by {
                let i = choose|i: int| 0 <= i < entries@.len() && (#[trigger] entries@[i]).0 == g;
                assert(keys[i] == g);
            }
            assert(theirs.restrict(keys.to_set()) =~= theirs);
            lemma_joined_buckets(ours, theirs);
        }
    }

    fn add_member_types(&self, view: &mut TypeUniverse, members: &Vec<Member>)
        requires
            self.wf(),
        ensures
            final(view)@ == resolve_members(
                old(view)@,
                self.types_by_guid(),
                self.types_by_name(),
                self.types_by_guid().dom(),
                self.types_by_name().dom(),
                members_model(*members),
                members.len() as nat,
            ),
    {
        let ghost start = view@;
        let mut i: usize = 0;
        while i < members.len()
            invariant
                i <= members.len(),
                self.wf(),
                view@ == resolve_members(
                    start,
                    self.types_by_guid(),
                    self.types_by_name(),
                    self.types_by_guid().dom(),
                    self.types_by_name().dom(),
                    members_model(*members),
                    i as nat,
                ),
            decreases members.len() - i,
        {
            self.add_type_to_view(view, &members[i].ty);
            i += 1;
        }
    }

    /// Matches `function` against the store, and returns the record that the caller is to
    /// tell its observer of, if any.
    ///
    /// A remembered result is returned as it is. Otherwise the function is matched
    /// afresh, and where a record matches, the types of its signature are registered in
    /// `view` before the record is returned.
    pub fn match_function(&self, function: &SubjectFunction, view: &mut TypeUniverse) -> (found:
        Option<Function>)
        requires
            self.wf(),
        ensures
            function_model(found) == self.reported(function@),
            final(view)@ == self.after_match(function@, old(view)@),
            old(view)@.is_prefix_of(final(view)@),
            keyed_by_own_hash(self.types_by_guid()) && closed(
                old(view)@,
                self.types_by_guid(),
                self.types_by_name(),
            ) ==> closed(final(view)@, self.types_by_guid(), self.types_by_name()),
            function.remembered is None ==> (found matches Some(f) ==> signature_settled(
                final(view)@,
                f@.ty,
            ) && Some(f.guid) == function.guid),
    {
        if let Some(result) = &function.remembered {
            return match result {
                Some(record) => Some(record.clone()),
                None => None,
            };
        }
        proof {
            if keyed_by_own_hash(self.types_by_guid()) && closed(
                view@,
                self.types_by_guid(),
                self.types_by_name(),
            ) {
                if let Some(f) = self.matched(function@) {
                    lemma_resolve_signature_closed(
                        view@,
                        self.types_by_guid(),
                        self.types_by_name(),
                        f.ty,
                    );
                }
            }
            self.lemma_match_twice(function@, view@);
            lemma_matched_hash(
                self.functions_by_guid(),
                self.settings.trivial_function_len,
                function@,
            );
        }
        let is_function_trivial = function.address_span < self.settings.trivial_function_len;
        let guid = match function.guid {
            Some(guid) => guid,
            None => {
                return None;
            },
        };
        let candidates = match function_bucket(&self.functions, guid.guid) {
            Some(candidates) => candidates,
            None => {
                return None;
            },
        };
        let chosen = if candidates.len() == 1 && !is_function_trivial {
            Some(&candidates[0])
        } else {
            self.match_function_from_constraints(function, candidates.as_slice())
        };
        match chosen {
            Some(record) => {
                if let TypeClass::Function { out_members, in_members } = &record.ty.class {
                    self.add_member_types(view, out_members);
                    self.add_member_types(view, in_members);
                }
                Some(record.clone())
            },
            None => None,
        }
    }
}

} // verus!
