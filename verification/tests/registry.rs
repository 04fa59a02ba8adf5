use warp_matcher::guid::{FunctionGUID, PlatformID, TypeGUID};
use warp_matcher::matcher::{Matcher, SubjectFunction};
use warp_matcher::registry::{
    cached_function_matcher, invalidate_function_matcher_cache, CachedMatch, MatcherRegistry,
    Signatures,
};
use warp_matcher::signature::{Data, Function, FunctionConstraints, Symbol};
use warp_matcher::types::{Member, Type, TypeClass};
use warp_matcher::universe::TypeUniverse;

fn named(id: u128, own: &str) -> Type {
    Type {
        guid: TypeGUID { guid: id },
        name: Some(own.to_string()),
        class: TypeClass::Referrer { guid: None, name: None },
    }
}

fn record(guid: u128, name: &str) -> Function {
    Function {
        guid: FunctionGUID { guid },
        symbol: Some(Symbol { name: name.to_string() }),
        ty: Type {
            guid: TypeGUID { guid: 100 },
            name: None,
            class: TypeClass::Function {
                out_members: vec![Member { name: None, offset: 0, ty: named(101, "ret") }],
                in_members: vec![],
            },
        },
        constraints: FunctionConstraints { call_sites: vec![] },
    }
}

fn bundle(functions: Vec<Function>) -> Data {
    Data { functions, types: vec![] }
}

fn subject(guid: u128) -> SubjectFunction {
    SubjectFunction {
        address_span: 50,
        guid: Some(FunctionGUID { guid }),
        call_sites: vec![],
        remembered: None,
    }
}

fn found_name(outcome: CachedMatch) -> Option<String> {
    match outcome {
        CachedMatch::Matched(found) => found.map(|f| f.symbol.unwrap().name),
        CachedMatch::NeedsSignatures => panic!("no matcher for the platform"),
    }
}

#[test]
fn a_miss_without_signatures_asks_for_them() {
    let mut registry = MatcherRegistry::new();
    let mut view = TypeUniverse::new();
    let platform = PlatformID::from(&b"linux-x86_64"[..]);
    let outcome = cached_function_matcher(&mut registry, platform, None, &subject(1), &mut view);
    assert!(matches!(outcome, CachedMatch::NeedsSignatures));
    assert!(registry.get(platform).is_none());
    assert_eq!(view.len(), 0);
}

#[test]
fn a_miss_with_signatures_builds_and_keeps_the_matcher() {
    let mut registry = MatcherRegistry::new();
    let mut view = TypeUniverse::new();
    let platform = PlatformID::from(&b"linux-x86_64"[..]);
    let signatures =
        Signatures { core: vec![bundle(vec![record(1, "core")])], user: vec![bundle(vec![record(2, "user")])] };
    let outcome =
        cached_function_matcher(&mut registry, platform, Some(signatures), &subject(2), &mut view);
    assert_eq!(found_name(outcome), Some("user".to_string()));
    assert_eq!(view.len(), 1);
    assert_eq!(view.definitions()[0].name, "ret");
    // The matcher is kept: the next call needs no signatures.
    let outcome = cached_function_matcher(&mut registry, platform, None, &subject(1), &mut view);
    assert_eq!(found_name(outcome), Some("core".to_string()));
    let outcome = cached_function_matcher(&mut registry, platform, None, &subject(3), &mut view);
    assert_eq!(found_name(outcome), None);
}

#[test]
fn a_hit_does_not_look_at_the_signatures() {
    let mut registry = MatcherRegistry::new();
    let mut view = TypeUniverse::new();
    let platform = PlatformID(7);
    registry.insert(platform, Matcher::from_data(bundle(vec![record(1, "kept")])));
    let other = Signatures { core: vec![bundle(vec![record(1, "other")])], user: vec![] };
    let outcome =
        cached_function_matcher(&mut registry, platform, Some(other), &subject(1), &mut view);
    assert_eq!(found_name(outcome), Some("kept".to_string()));
}

#[test]
fn platforms_have_matchers_of_their_own() {
    let mut registry = MatcherRegistry::new();
    let mut view = TypeUniverse::new();
    registry.insert(PlatformID(1), Matcher::from_data(bundle(vec![record(1, "one")])));
    registry.insert(PlatformID(2), Matcher::from_data(bundle(vec![record(1, "two")])));
    let outcome =
        cached_function_matcher(&mut registry, PlatformID(2), None, &subject(1), &mut view);
    assert_eq!(found_name(outcome), Some("two".to_string()));
    let outcome =
        cached_function_matcher(&mut registry, PlatformID(1), None, &subject(1), &mut view);
    assert_eq!(found_name(outcome), Some("one".to_string()));
    let outcome =
        cached_function_matcher(&mut registry, PlatformID(3), None, &subject(1), &mut view);
    assert!(matches!(outcome, CachedMatch::NeedsSignatures));
}

#[test]
fn insert_replaces_the_matcher_of_a_platform() {
    let mut registry = MatcherRegistry::new();
    let mut view = TypeUniverse::new();
    registry.insert(PlatformID(1), Matcher::from_data(bundle(vec![record(1, "old")])));
    registry.insert(PlatformID(1), Matcher::from_data(bundle(vec![record(1, "new")])));
    let outcome =
        cached_function_matcher(&mut registry, PlatformID(1), None, &subject(1), &mut view);
    assert_eq!(found_name(outcome), Some("new".to_string()));
}

#[test]
fn invalidation_forgets_every_matcher() {
    let mut registry = MatcherRegistry::new();
    let mut view = TypeUniverse::new();
    registry.insert(PlatformID(1), Matcher::from_data(bundle(vec![record(1, "one")])));
    registry.insert(PlatformID(2), Matcher::from_data(bundle(vec![record(1, "two")])));
    invalidate_function_matcher_cache(&mut registry);
    assert!(registry.get(PlatformID(1)).is_none());
    assert!(registry.get(PlatformID(2)).is_none());
    let outcome =
        cached_function_matcher(&mut registry, PlatformID(1), None, &subject(1), &mut view);
    assert!(matches!(outcome, CachedMatch::NeedsSignatures));
    // Invalidating an empty registry is fine.
    invalidate_function_matcher_cache(&mut registry);
    assert!(registry.matchers.is_empty());
}

#[test]
fn a_matcher_in_hand_survives_invalidation() {
    let mut registry = MatcherRegistry::new();
    let mut view = TypeUniverse::new();
    registry.insert(PlatformID(1), Matcher::from_data(bundle(vec![record(1, "one")])));
    let held = registry.get(PlatformID(1)).unwrap();
    invalidate_function_matcher_cache(&mut registry);
    let found = held.match_function(&subject(1), &mut view);
    assert_eq!(found, Some(record(1, "one")));
}

#[test]
fn a_remembered_result_is_replayed_through_the_registry() {
    let mut registry = MatcherRegistry::new();
    let mut view = TypeUniverse::new();
    registry.insert(PlatformID(1), Matcher::from_data(bundle(vec![record(1, "one")])));
    let mut f = subject(1);
    f.remembered = Some(Some(record(9, "remembered")));
    let outcome = cached_function_matcher(&mut registry, PlatformID(1), None, &f, &mut view);
    assert_eq!(found_name(outcome), Some("remembered".to_string()));
    assert_eq!(view.len(), 0);
    // Without a matcher for the platform the signatures are asked for all the same.
    let outcome = cached_function_matcher(&mut registry, PlatformID(2), None, &f, &mut view);
    assert!(matches!(outcome, CachedMatch::NeedsSignatures));
}
