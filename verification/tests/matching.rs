use warp_matcher::guid::{FunctionGUID, TypeGUID};
use warp_matcher::matcher::{Matcher, SubjectFunction};
use warp_matcher::signature::{
    CallSiteConstraint, ComputedType, Data, Function, FunctionConstraints, Symbol,
};
use warp_matcher::types::{Member, Type, TypeClass};
use warp_matcher::universe::TypeUniverse;

const G: u128 = 0x6d656d637079;

fn primitive(id: u128) -> Type {
    Type { guid: TypeGUID { guid: id }, name: None, class: TypeClass::Primitive }
}

fn named(id: u128, own: &str) -> Type {
    Type {
        guid: TypeGUID { guid: id },
        name: Some(own.to_string()),
        class: TypeClass::Referrer { guid: None, name: None },
    }
}

fn refers_to(id: u128, own: &str, target: u128) -> Type {
    Type {
        guid: TypeGUID { guid: id },
        name: Some(own.to_string()),
        class: TypeClass::Referrer { guid: Some(TypeGUID { guid: target }), name: None },
    }
}

fn pointer(id: u128, child: Type) -> Type {
    Type {
        guid: TypeGUID { guid: id },
        name: None,
        class: TypeClass::Pointer { child: Box::new(child) },
    }
}

fn member(name: &str, ty: Type) -> Member {
    Member { name: Some(name.to_string()), offset: 0, ty }
}

fn memcpy_type() -> Type {
    Type {
        guid: TypeGUID { guid: 500 },
        name: None,
        class: TypeClass::Function {
            out_members: vec![member("return", pointer(501, named(502, "void")))],
            in_members: vec![
                member("dest", pointer(501, named(502, "void"))),
                member("src", pointer(503, refers_to(504, "const_void", 600))),
                member("n", named(505, "size_t")),
            ],
        },
    }
}

fn symbol(name: &str) -> Option<Symbol> {
    Some(Symbol { name: name.to_string() })
}

fn calls_name(callee: &str) -> CallSiteConstraint {
    CallSiteConstraint { guid: None, symbol: symbol(callee) }
}

fn calls_guid(callee: u128) -> CallSiteConstraint {
    CallSiteConstraint { guid: Some(FunctionGUID { guid: callee }), symbol: None }
}

fn record(guid: u128, name: &str, ty: Type, call_sites: Vec<CallSiteConstraint>) -> Function {
    Function {
        guid: FunctionGUID { guid },
        symbol: symbol(name),
        ty,
        constraints: FunctionConstraints { call_sites },
    }
}

fn memcpy() -> Function {
    record(G, "memcpy", memcpy_type(), vec![calls_name("malloc")])
}

fn subject(span: u64, guid: Option<u128>, call_sites: Vec<CallSiteConstraint>) -> SubjectFunction {
    SubjectFunction {
        address_span: span,
        guid: guid.map(|guid| FunctionGUID { guid }),
        call_sites,
        remembered: None,
    }
}

fn store(functions: Vec<Function>) -> Matcher {
    let types = vec![ComputedType { guid: TypeGUID { guid: 600 }, ty: named(600, "void_base") }];
    Matcher::from_data(Data { functions, types })
}

fn registered(view: &TypeUniverse) -> Vec<(String, u128)> {
    view.definitions().iter().map(|d| (d.name.clone(), d.id.guid)).collect()
}

fn entry(name: &str, id: u128) -> (String, u128) {
    (name.to_string(), id)
}

#[test]
fn end_to_end_memcpy() {
    let matcher = store(vec![memcpy()]);
    let mut view = TypeUniverse::new();
    let found = matcher.match_function(&subject(64, Some(G), vec![calls_name("malloc")]), &mut view);
    assert_eq!(found, Some(memcpy()));
    // Every type nested in the signature is registered when the record is handed out:
    // outputs before inputs, and what a referrer names before the referrer.
    assert_eq!(
        registered(&view),
        vec![
            entry("void", 502),
            entry("void_base", 600),
            entry("const_void", 504),
            entry("size_t", 505),
        ]
    );
}

#[test]
fn matching_twice_yields_the_same_record_and_registers_nothing_more() {
    let matcher = store(vec![memcpy()]);
    let f = subject(64, Some(G), vec![calls_name("malloc")]);
    let mut view = TypeUniverse::new();
    let first = matcher.match_function(&f, &mut view);
    let after_first = registered(&view);
    let second = matcher.match_function(&f, &mut view);
    assert_eq!(first, second);
    assert!(first.is_some());
    assert_eq!(registered(&view), after_first);
    assert_eq!(view.len(), 4);
}

#[test]
fn matching_does_not_depend_on_the_universe() {
    let matcher = store(vec![memcpy()]);
    let f = subject(64, Some(G), vec![]);
    let mut empty = TypeUniverse::new();
    let mut filled = TypeUniverse::new();
    assert!(filled.define_with_id("void".to_string(), TypeGUID { guid: 502 }, primitive(502)));
    assert_eq!(matcher.match_function(&f, &mut empty), matcher.match_function(&f, &mut filled));
    assert_eq!(
        registered(&filled),
        vec![
            entry("void", 502),
            entry("void_base", 600),
            entry("const_void", 504),
            entry("size_t", 505),
        ]
    );
}

#[test]
fn single_candidate_matches_a_function_that_is_not_trivial() {
    let matcher = store(vec![memcpy()]);
    let mut view = TypeUniverse::new();
    let found = matcher.match_function(&subject(100, Some(G), vec![]), &mut view);
    assert_eq!(found, Some(memcpy()));
}

#[test]
fn single_candidate_does_not_match_a_trivial_function_without_call_sites() {
    let matcher = store(vec![memcpy()]);
    let mut view = TypeUniverse::new();
    let found = matcher.match_function(&subject(19, Some(G), vec![]), &mut view);
    assert_eq!(found, None);
    assert_eq!(view.len(), 0);
}

#[test]
fn a_span_of_exactly_the_threshold_is_not_trivial() {
    let matcher = store(vec![memcpy()]);
    let mut view = TypeUniverse::new();
    assert!(matcher.match_function(&subject(20, Some(G), vec![]), &mut view).is_some());
    assert!(matcher.match_function(&subject(0, Some(G), vec![]), &mut view).is_none());
}

#[test]
fn the_threshold_follows_the_settings() {
    let mut matcher = store(vec![memcpy()]);
    matcher.settings.trivial_function_len = 200;
    let mut view = TypeUniverse::new();
    assert!(matcher.match_function(&subject(100, Some(G), vec![]), &mut view).is_none());
    assert!(matcher.match_function(&subject(200, Some(G), vec![]), &mut view).is_some());
    matcher.settings.trivial_function_len = 0;
    assert!(matcher.match_function(&subject(0, Some(G), vec![]), &mut view).is_some());
}

#[test]
fn a_trivial_function_matches_on_call_site_evidence() {
    let matcher = store(vec![memcpy()]);
    let mut view = TypeUniverse::new();
    let found = matcher.match_function(&subject(4, Some(G), vec![calls_name("malloc")]), &mut view);
    assert_eq!(found, Some(memcpy()));
}

#[test]
fn a_trivial_function_with_unrelated_call_sites_does_not_match() {
    let matcher = store(vec![memcpy()]);
    let mut view = TypeUniverse::new();
    let found = matcher.match_function(&subject(4, Some(G), vec![calls_name("free")]), &mut view);
    assert_eq!(found, None);
}

#[test]
fn a_function_without_a_hash_does_not_match() {
    let matcher = store(vec![memcpy()]);
    let mut view = TypeUniverse::new();
    let found = matcher.match_function(&subject(100, None, vec![calls_name("malloc")]), &mut view);
    assert_eq!(found, None);
    assert_eq!(view.len(), 0);
}

#[test]
fn an_unknown_hash_does_not_match() {
    let matcher = store(vec![memcpy()]);
    let mut view = TypeUniverse::new();
    let found =
        matcher.match_function(&subject(100, Some(G + 1), vec![calls_name("malloc")]), &mut view);
    assert_eq!(found, None);
}

#[test]
fn an_empty_store_matches_nothing() {
    let matcher = Matcher::default();
    let mut view = TypeUniverse::new();
    assert_eq!(matcher.match_function(&subject(100, Some(G), vec![]), &mut view), None);
    assert_eq!(matcher.settings.trivial_function_len, 20);
}

#[test]
fn several_candidates_need_call_site_evidence() {
    let memmove = record(G, "memmove", primitive(1), vec![calls_guid(7), calls_guid(8)]);
    let matcher = store(vec![memcpy(), memmove.clone()]);
    let mut view = TypeUniverse::new();
    assert_eq!(matcher.match_function(&subject(100, Some(G), vec![]), &mut view), None);
    let found = matcher.match_function(
        &subject(100, Some(G), vec![calls_guid(7), calls_guid(8), calls_name("malloc")]),
        &mut view,
    );
    assert_eq!(found, Some(memmove));
    // The record that matched has a primitive type: nothing was registered for it.
    assert_eq!(view.len(), 0);
}

#[test]
fn a_record_of_another_type_class_registers_nothing() {
    let plain = record(G, "plain", named(900, "not_a_function"), vec![]);
    let matcher = store(vec![plain.clone()]);
    let mut view = TypeUniverse::new();
    assert_eq!(matcher.match_function(&subject(100, Some(G), vec![]), &mut view), Some(plain));
    assert_eq!(view.len(), 0);
}

#[test]
fn a_remembered_match_is_replayed() {
    let matcher = store(vec![memcpy()]);
    let mut view = TypeUniverse::new();
    let fresh = subject(64, Some(G), vec![calls_name("malloc")]);
    let first = matcher.match_function(&fresh, &mut view);
    assert_eq!(view.len(), 4);
    let again = SubjectFunction { remembered: Some(first.clone()), ..fresh };
    assert_eq!(matcher.match_function(&again, &mut view), first);
    assert_eq!(view.len(), 4);
    // The replay registers nothing, also in a universe that lacks the types.
    let mut other = TypeUniverse::new();
    assert_eq!(matcher.match_function(&again, &mut other), Some(memcpy()));
    assert_eq!(other.len(), 0);
}

#[test]
fn a_remembered_result_stands_whatever_the_store_holds() {
    let matcher = store(vec![memcpy()]);
    let mut view = TypeUniverse::new();
    let mut f = subject(64, Some(G), vec![]);
    f.remembered = Some(None);
    assert_eq!(matcher.match_function(&f, &mut view), None);
    let memmove = record(G, "memmove", memcpy_type(), vec![]);
    f.remembered = Some(Some(memmove.clone()));
    assert_eq!(matcher.match_function(&f, &mut view), Some(memmove));
    assert_eq!(view.len(), 0);
}
