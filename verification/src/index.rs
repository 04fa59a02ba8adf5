//! The concurrent maps that hold signature data, and what is taken on trust of them.
//!
//! Nothing in this file is proved. Each function makes one call into `dashmap`, and its
//! contract states what that call does to the entries of the map and what it hands back.

use crate::matcher::Matcher;
use crate::signature::{functions_model, Function, FunctionModel};
use crate::types::{Type, TypeModel};
use dashmap::DashMap;
use std::collections::hash_map::RandomState;
use std::sync::Arc;
use vstd::prelude::*;

verus! {

/// `dashmap::DashMap`, of which nothing is known to the verifier but what this file states.
#[verifier::external_type_specification]
#[verifier::external_body]
#[verifier::reject_recursive_types(K)]
#[verifier::reject_recursive_types(V)]
#[verifier::reject_recursive_types(S)]
pub struct ExDashMap<K, V, S>(DashMap<K, V, S>);

/// The entries of a map from function hash to the signatures that share it.
pub uninterp spec fn function_buckets(m: DashMap<u128, Vec<Function>, RandomState>) -> Map<u128, Seq<FunctionModel>>;

/// The entries of a map from type hash to type.
pub uninterp spec fn types_by_guid(m: DashMap<u128, Type, RandomState>) -> Map<u128, TypeModel>;

/// The entries of a map from type name to type.
pub uninterp spec fn types_by_name(m: DashMap<String, Type, RandomState>) -> Map<Seq<char>, TypeModel>;

/// The entries of a map from platform to the matcher built for it.
pub uninterp spec fn matchers_by_platform(m: DashMap<u64, Arc<Matcher>, RandomState>) -> Map<u64, Matcher>;

/// `DashMap::new`: the new map has no entry.
#[verifier::external_body]
pub(crate) fn new_function_buckets() -> (m: DashMap<u128, Vec<Function>, RandomState>)
    ensures
        function_buckets(m) == (Map::<u128, Seq<FunctionModel>>::empty()),
{
    DashMap::new()
}

/// `DashMap::get`: a copy of the signatures stored under `guid`, where the map has that
/// key, and nothing where it has not.
#[verifier::external_body]
pub(crate) fn function_bucket(m: &DashMap<u128, Vec<Function>, RandomState>, guid: u128) -> (bucket: Option<Vec<Function>>)
    ensures
        bucket is Some == function_buckets(*m).contains_key(guid),
        bucket matches Some(b) ==> functions_model(b@) == function_buckets(*m)[guid],
{
    m.get(&guid).map(|entry| entry.value().clone())
}

/// `DashMap::remove`: the signatures stored under `guid` leave the map and are handed
/// over, where the map has that key. Where it has not, nothing is handed over. Every other
/// entry is as it was.
#[verifier::external_body]
pub(crate) fn take_function_bucket(m: &mut DashMap<u128, Vec<Function>, RandomState>, guid: u128) -> (bucket: Option<Vec<Function>>)
    ensures
        function_buckets(*final(m)) == function_buckets(*old(m)).remove(guid),
        bucket is Some == function_buckets(*old(m)).contains_key(guid),
        bucket matches Some(b) ==> functions_model(b@) == function_buckets(*old(m))[guid],
{
    m.remove(&guid).map(|entry| entry.1)
}

/// `DashMap::insert`: afterwards `guid` is bound to `bucket`, and every other entry is
/// as it was.
#[verifier::external_body]
pub(crate) fn set_function_bucket(m: &mut DashMap<u128, Vec<Function>, RandomState>, guid: u128, bucket: Vec<Function>)
    ensures
        function_buckets(*final(m)) == function_buckets(*old(m)).insert(guid, functions_model(bucket@)),
{
    m.insert(guid, bucket);
}

/// `IntoIterator::into_iter` of `DashMap`: the map is taken apart, and each of its entries
/// is handed out once. The order in which they come is not stated, so nothing is said of
/// it: no key comes twice, every pair is an entry of the map, and every key of the map
/// comes.
#[verifier::external_body]
pub(crate) fn into_function_buckets(m: DashMap<u128, Vec<Function>, RandomState>) -> (entries: Vec<(u128, Vec<Function>)>)
    ensures
        (forall|i: int, j: int| 0 <= i < j < entries.len() ==> (#[trigger] entries[i]).0 != (#[trigger] entries[j]).0),
        (forall|i: int| 0 <= i < entries.len() ==> function_buckets(m).contains_key((#[trigger] entries[i]).0) && function_buckets(m)[entries[i].0] == functions_model(entries[i].1@)),
        (forall|g: u128| #[trigger] function_buckets(m).contains_key(g) ==> exists|i: int| 0 <= i < entries.len() && (#[trigger] entries[i]).0 == g),
{
    m.into_iter().collect()
}

/// `Clone::clone` of `DashMap`: the copy has the entries of the map, each value copied.
#[verifier::external_body]
pub(crate) fn clone_function_buckets(m: &DashMap<u128, Vec<Function>, RandomState>) -> (copy: DashMap<u128, Vec<Function>, RandomState>)
    ensures
        function_buckets(copy) == function_buckets(*m),
{
    m.clone()
}

/// `DashMap::new`: the new map has no entry.
#[verifier::external_body]
pub(crate) fn new_types_by_guid() -> (m: DashMap<u128, Type, RandomState>)
    ensures
        types_by_guid(m) == (Map::<u128, TypeModel>::empty()),
{
    DashMap::new()
}

/// `DashMap::get`: a copy of the type stored under `guid`, where the map has that key,
/// and nothing where it has not.
#[verifier::external_body]
pub(crate) fn type_by_guid(m: &DashMap<u128, Type, RandomState>, guid: u128) -> (ty: Option<Type>)
    ensures
        ty is Some == types_by_guid(*m).contains_key(guid),
        ty matches Some(t) ==> t@ == types_by_guid(*m)[guid],
{
    m.get(&guid).map(|entry| entry.value().clone())
}

/// `DashMap::insert`: afterwards `guid` is bound to `ty`, and every other entry is as it
/// was.
#[verifier::external_body]
pub(crate) fn set_type_by_guid(m: &mut DashMap<u128, Type, RandomState>, guid: u128, ty: Type)
    ensures
        types_by_guid(*final(m)) == types_by_guid(*old(m)).insert(guid, ty@),
{
    m.insert(guid, ty);
}

/// `Extend::extend` of `DashMap`: every entry of `other` is inserted, so that a key of
/// both maps ends up with the value it has in `other`.
#[verifier::external_body]
pub(crate) fn absorb_types_by_guid(m: &mut DashMap<u128, Type, RandomState>, other: DashMap<u128, Type, RandomState>)
    ensures
        types_by_guid(*final(m)) == types_by_guid(*old(m)).union_prefer_right(types_by_guid(other)),
{
    m.extend(other);
}

/// `Clone::clone` of `DashMap`: the copy has the entries of the map, each value copied.
#[verifier::external_body]
pub(crate) fn clone_types_by_guid(m: &DashMap<u128, Type, RandomState>) -> (copy: DashMap<u128, Type, RandomState>)
    ensures
        types_by_guid(copy) == types_by_guid(*m),
{
    m.clone()
}

/// `DashMap::new`: the new map has no entry.
#[verifier::external_body]
pub(crate) fn new_types_by_name() -> (m: DashMap<String, Type, RandomState>)
    ensures
        types_by_name(m) == (Map::<Seq<char>, TypeModel>::empty()),
{
    DashMap::new()
}

/// `DashMap::get`: a copy of the type stored under `name`, where the map has that key,
/// and nothing where it has not. Keys are compared by their text.
#[verifier::external_body]
pub(crate) fn type_by_name(m: &DashMap<String, Type, RandomState>, name: &String) -> (ty: Option<Type>)
    ensures
        ty is Some == types_by_name(*m).contains_key(name@),
        ty matches Some(t) ==> t@ == types_by_name(*m)[name@],
{
    m.get(name).map(|entry| entry.value().clone())
}

/// `DashMap::insert`: afterwards `name` is bound to `ty`, and every other entry is as it
/// was. Keys are compared by their text.
#[verifier::external_body]
pub(crate) fn set_type_by_name(m: &mut DashMap<String, Type, RandomState>, name: String, ty: Type)
    ensures
        types_by_name(*final(m)) == types_by_name(*old(m)).insert(name@, ty@),
{
    m.insert(name, ty);
}

/// `Extend::extend` of `DashMap`: every entry of `other` is inserted, so that a key of
/// both maps ends up with the value it has in `other`.
#[verifier::external_body]
pub(crate) fn absorb_types_by_name(m: &mut DashMap<String, Type, RandomState>, other: DashMap<String, Type, RandomState>)
    ensures
        types_by_name(*final(m)) == types_by_name(*old(m)).union_prefer_right(types_by_name(other)),
{
    m.extend(other);
}

/// `Clone::clone` of `DashMap`: the copy has the entries of the map, each value copied.
#[verifier::external_body]
pub(crate) fn clone_types_by_name(m: &DashMap<String, Type, RandomState>) -> (copy: DashMap<String, Type, RandomState>)
    ensures
        types_by_name(copy) == types_by_name(*m),
{
    m.clone()
}

/// `DashMap::new`: the new map has no entry.
#[verifier::external_body]
pub(crate) fn new_matchers_by_platform() -> (m: DashMap<u64, Arc<Matcher>, RandomState>)
    ensures
        matchers_by_platform(m) == (Map::<u64, Matcher>::empty()),
{
    DashMap::new()
}

/// `DashMap::get`: a handle to the matcher stored under `platform`, where the map has
/// that key, and nothing where it has not.
#[verifier::external_body]
pub(crate) fn matcher_by_platform(m: &DashMap<u64, Arc<Matcher>, RandomState>, platform: u64) -> (matcher: Option<Arc<Matcher>>)
    ensures
        matcher is Some == matchers_by_platform(*m).contains_key(platform),
        matcher matches Some(found) ==> *found == matchers_by_platform(*m)[platform],
{
    m.get(&platform).map(|entry| entry.value().clone())
}

/// `DashMap::insert`: afterwards `platform` is bound to `matcher`, and every other entry
/// is as it was.
#[verifier::external_body]
pub(crate) fn set_matcher_by_platform(m: &mut DashMap<u64, Arc<Matcher>, RandomState>, platform: u64, matcher: Arc<Matcher>)
    ensures
        matchers_by_platform(*final(m)) == matchers_by_platform(*old(m)).insert(platform, *matcher),
{
    m.insert(platform, matcher);
}

/// `DashMap::clear`: afterwards the map has no entry.
#[verifier::external_body]
pub(crate) fn clear_matchers_by_platform(m: &mut DashMap<u64, Arc<Matcher>, RandomState>)
    ensures
        matchers_by_platform(*final(m)) == (Map::<u64, Matcher>::empty()),
{
    m.clear();
}

} // verus!
