//! The matchers that have been built, one for each platform, and matching through them.

use crate::guid::PlatformID;
use crate::index::{
    clear_matchers_by_platform, matcher_by_platform, matchers_by_platform,
    new_matchers_by_platform, set_matcher_by_platform,
};
use crate::matcher::{
    function_model, grouped, names_table, types_table, Matcher, MatcherSettings,
    SubjectFunction, SubjectModel,
};
use crate::signature::{bundles_model, merged, Data, DataModel, Function, FunctionModel};
use crate::universe::{DefinitionModel, TypeUniverse};
use dashmap::DashMap;
use std::sync::Arc;
use vstd::prelude::*;

verus! {

/// The matchers that have been built so far, by platform.
#[derive(Debug)]
pub struct MatcherRegistry {
    /// The matchers by the identity of their platform.
    pub matchers: DashMap<u64, Arc<Matcher>>,
}

/// The signature bundles of one platform, as they were loaded.
#[derive(Debug)]
pub struct Signatures {
    /// The built-in bundles.
    pub core: Vec<Data>,
    /// The user's bundles.
    pub user: Vec<Data>,
}

/// How an attempt to match through the registry ended.
#[derive(Debug)]
pub enum CachedMatch {
    /// A matcher for the platform was at hand. It found this record, or none.
    Matched(Option<Function>),
    /// No matcher has been built for the platform, and no signatures were supplied to
    /// build one from.
    NeedsSignatures,
}

/// The bundles of `signatures`, the built-in ones first.
pub open spec fn all_bundles(signatures: Signatures) -> Seq<DataModel> {
    bundles_model(signatures.core@) + bundles_model(signatures.user@)
}

/// `matcher` is a store of the records of `bundles`, with the default settings.
pub open spec fn built_from(matcher: Matcher, bundles: Seq<DataModel>) -> bool {
    &&& matcher.wf()
    &&& matcher.functions_by_guid() == grouped(merged(bundles).functions)
    &&& matcher.types_by_guid() == types_table(merged(bundles).types)
    &&& matcher.types_by_name() == names_table(merged(bundles).types)
    &&& matcher.settings.trivial_function_len == MatcherSettings::TRIVIAL_FUNCTION_LEN_DEFAULT
}

/// `found` is the result of matching `subject` with `matcher`, and `after` is what the
/// match makes of the universe `before`.
pub open spec fn matched_through(
    matcher: Matcher,
    subject: SubjectModel,
    before: Seq<DefinitionModel>,
    found: Option<FunctionModel>,
    after: Seq<DefinitionModel>,
) -> bool {
    &&& found == matcher.reported(subject)
    &&& after == matcher.after_match(subject, before)
}

impl MatcherRegistry {
    /// The matchers of the registry, by platform.
    pub open spec fn entries(&self) -> Map<u64, Matcher> {
        matchers_by_platform(self.matchers)
    }

    /// Every matcher of the registry is well formed.
    pub open spec fn wf(&self) -> bool {
        forall|p: u64| #[trigger] self.entries().contains_key(p) ==> self.entries()[p].wf()
    }

    /// A registry without any matcher.
    pub fn new() -> (registry: Self)
        ensures
            registry.wf(),
            registry.entries() == Map::<u64, Matcher>::empty(),
    {
        MatcherRegistry { matchers: new_matchers_by_platform() }
    }

    /// The matcher that was built for `platform`, if one was. It stays usable when the
    /// registry is invalidated.
    pub fn get(&self, platform: PlatformID) -> (matcher: Option<Arc<Matcher>>)
        ensures
            matcher is Some == self.entries().contains_key(platform.0),
            matcher matches Some(m) ==> *m == self.entries()[platform.0],
    {
        matcher_by_platform(&self.matchers, platform.0)
    }

    /// Keeps `matcher` as the matcher of `platform`, in place of an earlier one.
    pub fn insert(&mut self, platform: PlatformID, matcher: Matcher)
        requires
            old(self).wf(),
            matcher.wf(),
        ensures
            final(self).wf(),
            final(self).entries() == old(self).entries().insert(platform.0, matcher),
    {
        set_matcher_by_platform(&mut self.matchers, platform.0, Arc::new(matcher));
    }
}

/// Matches `function` with the matcher of `platform`.
///
/// Where the registry has no matcher for the platform, one is built from `signatures`
/// and kept. Where there are no signatures either, nothing is done, and the caller is
/// told to load them.
pub fn cached_function_matcher(
    registry: &mut MatcherRegistry,
    platform: PlatformID,
    signatures: Option<Signatures>,
    function: &SubjectFunction,
    view: &mut TypeUniverse,
) -> (outcome: CachedMatch)
    requires
        old(registry).wf(),
    ensures
        final(registry).wf(),
        old(registry).entries().contains_key(platform.0) ==> {
            &&& final(registry).entries() == old(registry).entries()
            &&& outcome matches CachedMatch::Matched(found)
            &&& matched_through(
                old(registry).entries()[platform.0],
                function@,
                old(view)@,
                function_model(found),
                final(view)@,
            )
        },
        !old(registry).entries().contains_key(platform.0) ==> match signatures {
            Some(loaded) => {
                &&& final(registry).entries().contains_key(platform.0)
                &&& final(registry).entries() == old(registry).entries().insert(
                    platform.0,
                    final(registry).entries()[platform.0],
                )
                &&& built_from(final(registry).entries()[platform.0], all_bundles(loaded))
                &&& outcome matches CachedMatch::Matched(found)
                &&& matched_through(
                    final(registry).entries()[platform.0],
                    function@,
                    old(view)@,
                    function_model(found),
                    final(view)@,
                )
            },
            None => {
                &&& final(registry).entries() == old(registry).entries()
                &&& outcome is NeedsSignatures
                &&& final(view)@ == old(view)@
            },
        },
{
    match registry.get(platform) {
        Some(matcher) => CachedMatch::Matched(matcher.match_function(function, view)),
        None => match signatures {
            Some(loaded) => {
                let matcher = Matcher::from_platform(loaded.core, loaded.user);
                let found = matcher.match_function(function, view);
                registry.insert(platform, matcher);
                CachedMatch::Matched(found)
            },
            None => CachedMatch::NeedsSignatures,
        },
    }
}

/// Forgets every matcher of the registry. A matcher that a caller holds stays usable.
pub fn invalidate_function_matcher_cache(registry: &mut MatcherRegistry)
    ensures
        final(registry).wf(),
        final(registry).entries() == Map::<u64, Matcher>::empty(),
{
    clear_matchers_by_platform(&mut registry.matchers);
}

} // verus!
