use warp_matcher::guid::{FunctionGUID, TypeGUID};
use warp_matcher::matcher::{Matcher, SubjectFunction};
use warp_matcher::signature::{
    CallSiteConstraint, Function, FunctionConstraints, Symbol,
};
use warp_matcher::types::{Type, TypeClass};

const SHARED: u128 = 0x1000;

fn primitive(id: u128) -> Type {
    Type { guid: TypeGUID { guid: id }, name: None, class: TypeClass::Primitive }
}

fn by_guid(callee: u128) -> CallSiteConstraint {
    CallSiteConstraint { guid: Some(FunctionGUID { guid: callee }), symbol: None }
}

fn by_name(callee: &str) -> CallSiteConstraint {
    CallSiteConstraint { guid: None, symbol: Some(Symbol { name: callee.to_string() }) }
}

fn by_both(guid: u128, callee: &str) -> CallSiteConstraint {
    CallSiteConstraint {
        guid: Some(FunctionGUID { guid }),
        symbol: Some(Symbol { name: callee.to_string() }),
    }
}

fn record(name: &str, ty: Type, call_sites: Vec<CallSiteConstraint>) -> Function {
    Function {
        guid: FunctionGUID { guid: SHARED },
        symbol: Some(Symbol { name: name.to_string() }),
        ty,
        constraints: FunctionConstraints { call_sites },
    }
}

fn subject(call_sites: Vec<CallSiteConstraint>) -> SubjectFunction {
    SubjectFunction {
        address_span: 100,
        guid: Some(FunctionGUID { guid: SHARED }),
        call_sites,
        remembered: None,
    }
}

fn pick(subject: &SubjectFunction, candidates: &[Function]) -> Option<String> {
    Matcher::default()
        .match_function_from_constraints(subject, candidates)
        .map(|f| f.symbol.as_ref().unwrap().name.clone())
}

#[test]
fn higher_guid_overlap_wins() {
    let candidates = vec![
        record("one", primitive(1), vec![by_guid(10), by_guid(99)]),
        record("three", primitive(1), vec![by_guid(10), by_guid(11), by_guid(12)]),
    ];
    let f = subject(vec![by_guid(10), by_guid(11), by_guid(12)]);
    assert_eq!(pick(&f, &candidates), Some("three".to_string()));
}

#[test]
fn higher_guid_overlap_wins_in_any_order() {
    let candidates = vec![
        record("three", primitive(1), vec![by_guid(10), by_guid(11), by_guid(12)]),
        record("one", primitive(1), vec![by_guid(10), by_guid(99)]),
    ];
    let f = subject(vec![by_guid(10), by_guid(11), by_guid(12)]);
    assert_eq!(pick(&f, &candidates), Some("three".to_string()));
}

#[test]
fn tie_on_guid_overlap_matches_nothing() {
    let candidates = vec![
        record("a", primitive(1), vec![by_guid(10), by_guid(11)]),
        record("b", primitive(1), vec![by_guid(10), by_guid(11), by_guid(50)]),
    ];
    let f = subject(vec![by_guid(10), by_guid(11)]);
    assert_eq!(pick(&f, &candidates), None);
}

#[test]
fn tie_is_not_deferred_to_a_lower_candidate() {
    let candidates = vec![
        record("a", primitive(1), vec![by_guid(10), by_guid(11)]),
        record("b", primitive(1), vec![by_guid(10), by_guid(11)]),
        record("c", primitive(1), vec![by_guid(10)]),
    ];
    let f = subject(vec![by_guid(10), by_guid(11)]);
    assert_eq!(pick(&f, &candidates), None);
}

#[test]
fn later_higher_score_takes_the_lead_after_a_tie() {
    let candidates = vec![
        record("a", primitive(1), vec![by_guid(10)]),
        record("b", primitive(1), vec![by_guid(11)]),
        record("c", primitive(1), vec![by_guid(10), by_guid(11)]),
    ];
    let f = subject(vec![by_guid(10), by_guid(11)]);
    assert_eq!(pick(&f, &candidates), Some("c".to_string()));
}

#[test]
fn no_call_sites_on_the_subject_matches_nothing() {
    let candidates = vec![record("only", primitive(1), vec![by_guid(10)])];
    let f = subject(vec![]);
    assert_eq!(pick(&f, &candidates), None);
}

#[test]
fn no_overlap_at_all_matches_nothing() {
    let candidates = vec![record("only", primitive(1), vec![by_guid(10), by_name("free")])];
    let f = subject(vec![by_guid(77), by_name("malloc")]);
    assert_eq!(pick(&f, &candidates), None);
}

#[test]
fn no_candidates_matches_nothing() {
    let f = subject(vec![by_guid(10)]);
    assert_eq!(pick(&f, &[]), None);
}

#[test]
fn repeated_call_sites_count_once() {
    // The subject names callee 10 three times: that is one shared hash, not three.
    let candidates = vec![
        record("once", primitive(1), vec![by_guid(10), by_guid(10)]),
        record("twice", primitive(1), vec![by_guid(10), by_guid(11)]),
    ];
    let f = subject(vec![by_guid(10), by_guid(10), by_guid(10), by_guid(11)]);
    assert_eq!(pick(&f, &candidates), Some("twice".to_string()));
}

#[test]
fn stronger_name_evidence_decides() {
    let candidates = vec![
        record("by_hash", primitive(1), vec![by_guid(10)]),
        record("by_names", primitive(1), vec![by_name("malloc"), by_name("free")]),
    ];
    let f = subject(vec![by_guid(10), by_name("malloc"), by_name("free")]);
    assert_eq!(pick(&f, &candidates), Some("by_names".to_string()));
}

#[test]
fn stronger_name_evidence_with_a_tie_matches_nothing() {
    let candidates = vec![
        record("by_hash", primitive(1), vec![by_guid(10)]),
        record("names_a", primitive(1), vec![by_name("malloc"), by_name("free")]),
        record("names_b", primitive(1), vec![by_name("malloc"), by_name("free")]),
    ];
    let f = subject(vec![by_guid(10), by_name("malloc"), by_name("free")]);
    assert_eq!(pick(&f, &candidates), None);
}

#[test]
fn stronger_guid_evidence_decides() {
    let candidates = vec![
        record("by_hashes", primitive(1), vec![by_guid(10), by_guid(11)]),
        record("by_name", primitive(1), vec![by_name("malloc")]),
    ];
    let f = subject(vec![by_guid(10), by_guid(11), by_name("malloc")]);
    assert_eq!(pick(&f, &candidates), Some("by_hashes".to_string()));
}

#[test]
fn equal_evidence_on_one_candidate_matches_it() {
    let candidates = vec![
        record("both", primitive(1), vec![by_both(10, "malloc")]),
        record("neither", primitive(1), vec![by_guid(55)]),
    ];
    let f = subject(vec![by_both(10, "malloc")]);
    assert_eq!(pick(&f, &candidates), Some("both".to_string()));
}

#[test]
fn equal_evidence_on_differing_candidates_matches_nothing() {
    let candidates = vec![
        record("by_hash", primitive(1), vec![by_guid(10)]),
        record("by_name", primitive(1), vec![by_name("malloc")]),
    ];
    let f = subject(vec![by_guid(10), by_name("malloc")]);
    assert_eq!(pick(&f, &candidates), None);
}

#[test]
fn equal_evidence_on_candidates_of_differing_type_matches_nothing() {
    let candidates = vec![
        record("same", primitive(1), vec![by_guid(10)]),
        record("same", primitive(2), vec![by_name("malloc")]),
    ];
    let f = subject(vec![by_guid(10), by_name("malloc")]);
    assert_eq!(pick(&f, &candidates), None);
}

#[test]
fn equal_evidence_on_agreeing_candidates_matches_the_guid_leader() {
    let candidates = vec![
        record("same", primitive(1), vec![by_name("malloc")]),
        record("same", primitive(1), vec![by_guid(10)]),
    ];
    let f = subject(vec![by_guid(10), by_name("malloc")]);
    let matcher = Matcher::default();
    let chosen = matcher.match_function_from_constraints(&f, &candidates).unwrap();
    assert!(std::ptr::eq(chosen, &candidates[1]));
}
