use warp_matcher::guid::TypeGUID;
use warp_matcher::matcher::Matcher;
use warp_matcher::signature::{ComputedType, Data};
use warp_matcher::types::{Member, Type, TypeClass};
use warp_matcher::universe::TypeUniverse;

fn primitive(id: u128) -> Type {
    Type { guid: TypeGUID { guid: id }, name: None, class: TypeClass::Primitive }
}

fn referrer(id: u128, own: Option<&str>, to_guid: Option<u128>, to_name: Option<&str>) -> Type {
    Type {
        guid: TypeGUID { guid: id },
        name: own.map(|s| s.to_string()),
        class: TypeClass::Referrer {
            guid: to_guid.map(|guid| TypeGUID { guid }),
            name: to_name.map(|s| s.to_string()),
        },
    }
}

fn named(id: u128, own: &str) -> Type {
    referrer(id, Some(own), None, None)
}

fn pointer(id: u128, child: Type) -> Type {
    Type {
        guid: TypeGUID { guid: id },
        name: None,
        class: TypeClass::Pointer { child: Box::new(child) },
    }
}

fn members(types: Vec<Type>) -> Vec<Member> {
    let mut offset = 0;
    let mut out = Vec::new();
    for ty in types {
        out.push(Member { name: None, offset, ty });
        offset += 8;
    }
    out
}

fn structure(id: u128, own: Option<&str>, fields: Vec<Type>) -> Type {
    Type {
        guid: TypeGUID { guid: id },
        name: own.map(|s| s.to_string()),
        class: TypeClass::Structure { members: members(fields) },
    }
}

fn function_type(id: u128, outs: Vec<Type>, ins: Vec<Type>) -> Type {
    Type {
        guid: TypeGUID { guid: id },
        name: None,
        class: TypeClass::Function { out_members: members(outs), in_members: members(ins) },
    }
}

fn listed(under: u128, ty: Type) -> ComputedType {
    ComputedType { guid: TypeGUID { guid: under }, ty }
}

fn store(types: Vec<ComputedType>) -> Matcher {
    Matcher::from_data(Data { functions: vec![], types })
}

fn registered(view: &TypeUniverse) -> Vec<(String, u128)> {
    view.definitions().iter().map(|d| (d.name.clone(), d.id.guid)).collect()
}

fn entry(name: &str, id: u128) -> (String, u128) {
    (name.to_string(), id)
}

#[test]
fn primitive_registers_nothing() {
    let matcher = store(vec![]);
    let mut view = TypeUniverse::new();
    matcher.add_type_to_view(&mut view, &primitive(1));
    assert_eq!(view.len(), 0);
}

#[test]
fn referrer_registers_itself_under_its_name() {
    let matcher = store(vec![]);
    let mut view = TypeUniverse::new();
    let ty = named(10, "FILE");
    matcher.add_type_to_view(&mut view, &ty);
    assert_eq!(registered(&view), vec![entry("FILE", 10)]);
    assert_eq!(view.definitions()[0].ty, ty);
}

#[test]
fn nameless_referrer_registers_itself_under_its_identifier() {
    let matcher = store(vec![]);
    let mut view = TypeUniverse::new();
    matcher.add_type_to_view(&mut view, &referrer(0xb, None, None, None));
    assert_eq!(registered(&view), vec![entry("00000000-0000-0000-0000-00000000000b", 0xb)]);
}

#[test]
fn embedding_classes_register_only_their_referrers() {
    let matcher = store(vec![]);
    let mut view = TypeUniverse::new();
    let array = Type {
        guid: TypeGUID { guid: 2 },
        name: Some("array_of_ptr".to_string()),
        class: TypeClass::Array { member: Box::new(pointer(3, named(4, "item"))) },
    };
    let enumeration = Type {
        guid: TypeGUID { guid: 5 },
        name: Some("colour".to_string()),
        class: TypeClass::Enumeration { member_type: Box::new(named(6, "colour_base")) },
    };
    matcher.add_type_to_view(&mut view, &array);
    matcher.add_type_to_view(&mut view, &enumeration);
    assert_eq!(registered(&view), vec![entry("item", 4), entry("colour_base", 6)]);
}

#[test]
fn structure_members_are_resolved_in_declared_order() {
    let matcher = store(vec![]);
    let mut view = TypeUniverse::new();
    let ty = structure(
        60,
        Some("pair"),
        vec![named(61, "a"), primitive(62), named(63, "b"), named(61, "a")],
    );
    matcher.add_type_to_view(&mut view, &ty);
    assert_eq!(registered(&view), vec![entry("a", 61), entry("b", 63)]);
}

#[test]
fn union_members_are_resolved_in_declared_order() {
    let matcher = store(vec![]);
    let mut view = TypeUniverse::new();
    let ty = Type {
        guid: TypeGUID { guid: 64 },
        name: None,
        class: TypeClass::Union { members: members(vec![named(66, "y"), named(65, "x")]) },
    };
    matcher.add_type_to_view(&mut view, &ty);
    assert_eq!(registered(&view), vec![entry("y", 66), entry("x", 65)]);
}

#[test]
fn function_outputs_are_resolved_before_inputs() {
    let matcher = store(vec![]);
    let mut view = TypeUniverse::new();
    let ty = function_type(
        70,
        vec![named(71, "ret")],
        vec![named(72, "arg0"), pointer(73, named(74, "arg1"))],
    );
    matcher.add_type_to_view(&mut view, &ty);
    assert_eq!(registered(&view), vec![entry("ret", 71), entry("arg0", 72), entry("arg1", 74)]);
}

#[test]
fn referrer_by_hash_registers_its_target_first() {
    let matcher = store(vec![listed(20, named(20, "inner"))]);
    let mut view = TypeUniverse::new();
    matcher.add_type_to_view(&mut view, &referrer(10, Some("outer"), Some(20), None));
    assert_eq!(registered(&view), vec![entry("inner", 20), entry("outer", 10)]);
}

#[test]
fn referrer_by_name_registers_its_target_first() {
    let matcher = store(vec![listed(21, named(21, "size_t"))]);
    let mut view = TypeUniverse::new();
    matcher.add_type_to_view(&mut view, &referrer(0x11, None, None, Some("size_t")));
    assert_eq!(
        registered(&view),
        vec![entry("size_t", 21), entry("00000000-0000-0000-0000-000000000011", 0x11)]
    );
}

#[test]
fn a_followed_hash_leaves_the_name_alone() {
    let matcher =
        store(vec![listed(20, named(20, "by_hash")), listed(30, named(30, "by_name"))]);
    let mut view = TypeUniverse::new();
    matcher.add_type_to_view(&mut view, &referrer(10, Some("r"), Some(20), Some("by_name")));
    assert_eq!(registered(&view), vec![entry("by_hash", 20), entry("r", 10)]);
}

#[test]
fn an_unknown_hash_falls_back_to_the_name() {
    let matcher =
        store(vec![listed(20, named(20, "by_hash")), listed(30, named(30, "by_name"))]);
    let mut view = TypeUniverse::new();
    matcher.add_type_to_view(&mut view, &referrer(10, Some("r"), Some(99), Some("by_name")));
    assert_eq!(registered(&view), vec![entry("by_name", 30), entry("r", 10)]);
}

#[test]
fn a_registered_hash_falls_back_to_the_name() {
    let matcher =
        store(vec![listed(20, named(20, "by_hash")), listed(30, named(30, "by_name"))]);
    let mut view = TypeUniverse::new();
    assert!(view.define_with_id("by_hash".to_string(), TypeGUID { guid: 20 }, named(20, "by_hash")));
    matcher.add_type_to_view(&mut view, &referrer(10, Some("r"), Some(20), Some("by_name")));
    assert_eq!(
        registered(&view),
        vec![entry("by_hash", 20), entry("by_name", 30), entry("r", 10)]
    );
}

#[test]
fn a_name_is_followed_whatever_is_registered_under_it() {
    let matcher = store(vec![listed(30, named(30, "by_name"))]);
    let mut view = TypeUniverse::new();
    assert!(view.define_with_id("by_name".to_string(), TypeGUID { guid: 77 }, primitive(77)));
    matcher.add_type_to_view(&mut view, &referrer(10, Some("r"), None, Some("by_name")));
    assert_eq!(
        registered(&view),
        vec![entry("by_name", 77), entry("by_name", 30), entry("r", 10)]
    );
}

#[test]
fn a_name_registered_on_the_way_is_still_followed() {
    // The store holds under "Y" a structure with a referrer member. The first member of
    // the type to resolve registers itself under the name "Y"; the second refers to "Y".
    let matcher = store(vec![listed(40, structure(40, Some("Y"), vec![named(41, "member")]))]);
    let mut view = TypeUniverse::new();
    let ty = structure(1, None, vec![named(2, "Y"), referrer(3, Some("second"), None, Some("Y"))]);
    matcher.add_type_to_view(&mut view, &ty);
    assert_eq!(registered(&view), vec![entry("Y", 2), entry("member", 41), entry("second", 3)]);
}

#[test]
fn a_registered_type_is_left_alone() {
    let matcher = store(vec![listed(20, named(20, "inner"))]);
    let mut view = TypeUniverse::new();
    assert!(view.define_with_id("outer".to_string(), TypeGUID { guid: 10 }, primitive(10)));
    matcher.add_type_to_view(&mut view, &referrer(10, Some("outer"), Some(20), None));
    assert_eq!(registered(&view), vec![entry("outer", 10)]);
    // An embedding type that is registered is not walked either.
    assert!(view.define_with_id("s".to_string(), TypeGUID { guid: 60 }, primitive(60)));
    matcher.add_type_to_view(&mut view, &structure(60, None, vec![named(61, "field")]));
    assert_eq!(registered(&view), vec![entry("outer", 10), entry("s", 60)]);
}

#[test]
fn resolving_twice_registers_once() {
    let matcher = store(vec![listed(20, named(20, "inner")), listed(21, named(21, "size_t"))]);
    let mut view = TypeUniverse::new();
    let ty = structure(
        1,
        None,
        vec![
            referrer(10, Some("outer"), Some(20), None),
            pointer(2, referrer(11, Some("len"), None, Some("size_t"))),
        ],
    );
    matcher.add_type_to_view(&mut view, &ty);
    let once = registered(&view);
    assert_eq!(
        once,
        vec![entry("inner", 20), entry("outer", 10), entry("size_t", 21), entry("len", 11)]
    );
    matcher.add_type_to_view(&mut view, &ty);
    assert_eq!(registered(&view), once);
    matcher.add_type_to_view(&mut view, &referrer(10, Some("outer"), Some(20), None));
    assert_eq!(registered(&view), once);
}

#[test]
fn a_name_that_refers_to_itself_ends() {
    let link = referrer(41, None, None, Some("node"));
    let node = structure(40, Some("node"), vec![link.clone()]);
    let matcher = store(vec![listed(40, node)]);
    let mut view = TypeUniverse::new();
    matcher.add_type_to_view(&mut view, &link);
    assert_eq!(registered(&view), vec![entry("00000000-0000-0000-0000-000000000029", 41)]);
}

#[test]
fn names_that_refer_to_each_other_end() {
    // "a" is a referrer to "b", and "b" is a referrer to "a". While "b" is resolved for
    // "a", "a" is met again: its name is no longer followed, and it is registered there.
    let a = referrer(1, Some("a"), None, Some("b"));
    let b = referrer(2, Some("b"), None, Some("a"));
    let matcher = store(vec![listed(1, a.clone()), listed(2, b)]);
    let mut view = TypeUniverse::new();
    matcher.add_type_to_view(&mut view, &a);
    assert_eq!(registered(&view), vec![entry("a", 1), entry("b", 2)]);
}

#[test]
fn a_hash_that_refers_to_itself_ends() {
    let link = referrer(51, None, Some(50), None);
    let matcher = store(vec![listed(50, pointer(50, link.clone()))]);
    let mut view = TypeUniverse::new();
    matcher.add_type_to_view(&mut view, &link);
    assert_eq!(registered(&view), vec![entry("00000000-0000-0000-0000-000000000033", 51)]);
}

#[test]
fn a_hash_that_is_being_resolved_answers_without_being_entered_again() {
    // The link carries a name as well. Its hash answers it, so the name is left alone.
    let link = referrer(51, None, Some(50), Some("extra"));
    let matcher =
        store(vec![listed(50, pointer(50, link.clone())), listed(60, named(60, "extra"))]);
    let mut view = TypeUniverse::new();
    matcher.add_type_to_view(&mut view, &link);
    assert_eq!(registered(&view), vec![entry("00000000-0000-0000-0000-000000000033", 51)]);
}

#[test]
fn of_two_types_under_one_hash_the_later_stays() {
    let matcher =
        store(vec![listed(20, named(201, "first")), listed(20, named(202, "second"))]);
    let mut view = TypeUniverse::new();
    matcher.add_type_to_view(&mut view, &referrer(10, Some("r"), Some(20), None));
    assert_eq!(registered(&view), vec![entry("second", 202), entry("r", 10)]);
}

#[test]
fn of_two_types_with_one_name_the_later_stays() {
    let matcher = store(vec![listed(301, named(301, "dup")), listed(302, named(302, "dup"))]);
    let mut view = TypeUniverse::new();
    matcher.add_type_to_view(&mut view, &referrer(10, Some("r"), None, Some("dup")));
    assert_eq!(registered(&view), vec![entry("dup", 302), entry("r", 10)]);
}

#[test]
fn a_type_without_a_name_is_not_found_by_name() {
    let matcher = store(vec![listed(20, referrer(20, None, None, None))]);
    let mut view = TypeUniverse::new();
    matcher.add_type_to_view(&mut view, &referrer(10, Some("r"), None, Some("anything")));
    assert_eq!(registered(&view), vec![entry("r", 10)]);
}

#[test]
fn an_absorbed_store_overrides_colliding_types() {
    let mut matcher =
        store(vec![listed(20, named(201, "ours")), listed(40, named(401, "shared_name"))]);
    let other = store(vec![
        listed(20, named(202, "theirs")),
        listed(41, named(402, "shared_name")),
        listed(50, named(50, "only_theirs")),
    ]);
    matcher.extend_with_matcher(other);
    let mut view = TypeUniverse::new();
    matcher.add_type_to_view(&mut view, &referrer(10, Some("r"), Some(20), None));
    matcher.add_type_to_view(&mut view, &referrer(11, Some("s"), None, Some("shared_name")));
    matcher.add_type_to_view(&mut view, &referrer(12, Some("t"), Some(50), None));
    matcher.add_type_to_view(&mut view, &referrer(13, Some("u"), Some(40), None));
    assert_eq!(
        registered(&view),
        vec![
            entry("theirs", 202),
            entry("r", 10),
            entry("shared_name", 402),
            entry("s", 11),
            entry("only_theirs", 50),
            entry("t", 12),
            entry("shared_name", 401),
            entry("u", 13),
        ]
    );
}

#[test]
fn universe_finds_by_identifier_and_by_name() {
    let mut view = TypeUniverse::new();
    assert!(view.get_type_by_id(TypeGUID { guid: 1 }).is_none());
    assert!(view.get_type_by_name(&"a".to_string()).is_none());
    assert!(view.define_with_id("a".to_string(), TypeGUID { guid: 1 }, primitive(1)));
    assert!(view.define_with_id("a".to_string(), TypeGUID { guid: 2 }, primitive(2)));
    assert!(!view.define_with_id("b".to_string(), TypeGUID { guid: 1 }, primitive(3)));
    assert_eq!(view.len(), 2);
    assert_eq!(view.get_type_by_id(TypeGUID { guid: 2 }).unwrap().name, "a");
    assert_eq!(view.get_type_by_id(TypeGUID { guid: 1 }).unwrap().ty, primitive(1));
    assert_eq!(view.get_type_by_name(&"a".to_string()).unwrap().id, TypeGUID { guid: 1 });
    assert!(view.get_type_by_name(&"b".to_string()).is_none());
    assert!(view.get_type_by_id(TypeGUID { guid: 3 }).is_none());
}

#[test]
fn everything_reached_through_the_store_is_registered() {
    // start -> (hash 100) a structure -> member by name "list" -> pointer -> referrer by
    // hash 200 -> a referrer that names "list" again, and so closes the circle.
    let again = referrer(201, Some("tail"), None, Some("list"));
    let link = referrer(150, Some("link"), Some(200), None);
    let list = Type {
        guid: TypeGUID { guid: 120 },
        name: Some("list".to_string()),
        class: TypeClass::Pointer { child: Box::new(link.clone()) },
    };
    let by_name = referrer(110, Some("head"), None, Some("list"));
    let record = structure(100, Some("record"), vec![by_name.clone(), primitive(111)]);
    let start = referrer(1, Some("start"), Some(100), None);
    let matcher = store(vec![listed(100, record), listed(120, list), listed(200, again.clone())]);
    let mut view = TypeUniverse::new();
    matcher.add_type_to_view(&mut view, &start);
    let ids: Vec<u128> = registered(&view).into_iter().map(|(_, id)| id).collect();
    for referrer in [&start, &by_name, &link, &again] {
        assert!(ids.contains(&referrer.guid.guid));
        assert_eq!(view.get_type_by_id(referrer.guid).unwrap().ty, *referrer);
    }
    assert_eq!(
        registered(&view),
        vec![entry("tail", 201), entry("link", 150), entry("head", 110), entry("start", 1)]
    );
}
