//! Registering a type, and every type that it depends on, in a destination universe.

use crate::guid::{id_text, TypeGUID};
use crate::index::{type_by_guid, type_by_name};
use crate::matcher::Matcher;
use crate::types::{members_model, ClassModel, Member, MemberModel, Type, TypeClass, TypeModel};
use crate::universe::{define, distinct_ids, has_id, DefinitionModel, TypeUniverse};
use std::collections::HashSet;
use vstd::hash_set::StringHashSet;
use vstd::prelude::*;

verus! {

/// The name under which a type is registered: its own, or else the text of its identifier.
pub open spec fn registered_name(ty: TypeModel) -> Seq<char> {
    match ty.name {
        Some(name) => name,
        None => id_text(ty.guid.guid),
    }
}

/// The definition that registers `ty`.
pub open spec fn definition_of(ty: TypeModel) -> DefinitionModel {
    DefinitionModel { name: registered_name(ty), id: ty.guid, ty }
}

/// The universe after `ty` has been resolved in `definitions`.
///
/// `types` and `names` are the store's types by hash and by name. `open_guids` and
/// `open_names` hold the keys of the two tables that are not being resolved: a key
/// leaves its set while the type found under it is resolved, and the type under a key
/// outside its set is not entered again. This bounds the walk on a graph that refers
/// back to itself.
///
/// A type whose identifier is registered is left alone. Otherwise the types embedded in
/// it are resolved in their declared order, and only a referrer registers a definition.
/// A referrer whose hash is not registered, and for whose hash the store has a type, is
/// answered by that type, which is resolved first. A referrer that is not so answered
/// has the type that the store holds under its name resolved first, unless that name is
/// being resolved. Then the referrer itself is registered.
pub open spec fn resolve_in(
    definitions: Seq<DefinitionModel>,
    types: Map<u128, TypeModel>,
    names: Map<Seq<char>, TypeModel>,
    open_guids: Set<u128>,
    open_names: Set<Seq<char>>,
    ty: TypeModel,
) -> Seq<DefinitionModel>
    decreases open_guids.len() + open_names.len(), ty, 0nat,
    when open_guids.finite() && open_names.finite()
{
    if has_id(definitions, ty.guid) {
        definitions
    } else {
        match ty.class {
            ClassModel::Primitive => definitions,
            ClassModel::Pointer { child } => resolve_in(
                definitions,
                types,
                names,
                open_guids,
                open_names,
                *child,
            ),
            ClassModel::Array { member } => resolve_in(
                definitions,
                types,
                names,
                open_guids,
                open_names,
                *member,
            ),
            ClassModel::Structure { members } => resolve_members(
                definitions,
                types,
                names,
                open_guids,
                open_names,
                members,
                members.len(),
            ),
            ClassModel::Enumeration { member_type } => resolve_in(
                definitions,
                types,
                names,
                open_guids,
                open_names,
                *member_type,
            ),
            ClassModel::Union { members } => resolve_members(
                definitions,
                types,
                names,
                open_guids,
                open_names,
                members,
                members.len(),
            ),
            ClassModel::Function { out_members, in_members } => resolve_members(
                resolve_members(
                    definitions,
                    types,
                    names,
                    open_guids,
                    open_names,
                    out_members,
                    out_members.len(),
                ),
                types,
                names,
                open_guids,
                open_names,
                in_members,
                in_members.len(),
            ),
            ClassModel::Referrer { guid, name } => {
                let by_guid = answers_guid(definitions, types, guid);
                let after_guid = if by_guid && open_guids.contains(guid->0.guid) {
                    resolve_in(
                        definitions,
                        types,
                        names,
                        open_guids.remove(guid->0.guid),
                        open_names,
                        types[guid->0.guid],
                    )
                } else {
                    definitions
                };
                let by_name = !by_guid && follows_name(names, open_names, name);
                let after_name = if by_name {
                    resolve_in(
                        after_guid,
                        types,
                        names,
                        open_guids,
                        open_names.remove(name->0),
                        names[name->0],
                    )
                } else {
                    after_guid
                };
                define(after_name, definition_of(ty))
            },
        }
    }
}

/// The universe after the types of the first `n` members have been resolved, one after
/// the other.
pub open spec fn resolve_members(
    definitions: Seq<DefinitionModel>,
    types: Map<u128, TypeModel>,
    names: Map<Seq<char>, TypeModel>,
    open_guids: Set<u128>,
    open_names: Set<Seq<char>>,
    members: Seq<MemberModel>,
    n: nat,
) -> Seq<DefinitionModel>
    decreases open_guids.len() + open_names.len(), members, n,
    when open_guids.finite() && open_names.finite() && n <= members.len()
{
    if n == 0 {
        definitions
    } else {
        resolve_in(
            resolve_members(
                definitions,
                types,
                names,
                open_guids,
                open_names,
                members,
                (n - 1) as nat,
            ),
            types,
            names,
            open_guids,
            open_names,
            members[n - 1].ty,
        )
    }
}

/// A referrer's hash is answered by the store: the hash is not registered, and the store
/// has a type under it.
pub open spec fn answers_guid(
    definitions: Seq<DefinitionModel>,
    types: Map<u128, TypeModel>,
    guid: Option<TypeGUID>,
) -> bool {
    guid matches Some(g) && !has_id(definitions, g) && types.contains_key(g.guid)
}

/// A referrer's name is followed: it is not being resolved, and the store has a type
/// under it.
pub open spec fn follows_name(
    names: Map<Seq<char>, TypeModel>,
    open_names: Set<Seq<char>>,
    name: Option<Seq<char>>,
) -> bool {
    name matches Some(n) && open_names.contains(n) && names.contains_key(n)
}

/// The universe after `ty` has been resolved against a store, starting with every key of
/// the store free to be followed.
pub open spec fn resolve(
    definitions: Seq<DefinitionModel>,
    types: Map<u128, TypeModel>,
    names: Map<Seq<char>, TypeModel>,
    ty: TypeModel,
) -> Seq<DefinitionModel> {
    resolve_in(definitions, types, names, types.dom(), names.dom(), ty)
}

/// The keys that may still be followed: those that are not being resolved.
pub open spec fn open_keys<K>(keys: Set<K>, busy: Set<K>) -> Set<K> {
    keys.difference(busy)
}

fn add_type(
    matcher: &Matcher,
    view: &mut TypeUniverse,
    busy_guids: &mut HashSet<u128>,
    busy_names: &mut StringHashSet,
    ty: &Type,
)
    requires
        matcher.types_by_guid().dom().finite(),
        matcher.types_by_name().dom().finite(),
    ensures
        final(view)@ == resolve_in(
            old(view)@,
            matcher.types_by_guid(),
            matcher.types_by_name(),
            open_keys(matcher.types_by_guid().dom(), old(busy_guids)@),
            open_keys(matcher.types_by_name().dom(), old(busy_names)@),
            ty@,
        ),
        final(busy_guids)@ == old(busy_guids)@,
        final(busy_names)@ == old(busy_names)@,
    decreases
        open_keys(matcher.types_by_guid().dom(), old(busy_guids)@).len() + open_keys(
            matcher.types_by_name().dom(),
            old(busy_names)@,
        ).len(),
        ty,
{
    broadcast use vstd::std_specs::hash::group_hash_axioms;

    let ghost types = matcher.types_by_guid();
    let ghost names = matcher.types_by_name();
    if view.get_type_by_id(ty.guid).is_some() {
        return ;
    }
    match &ty.class {
        TypeClass::Primitive => {},
        TypeClass::Pointer { child } => {
            add_type(matcher, view, busy_guids, busy_names, child);
        },
        TypeClass::Array { member } => {
            add_type(matcher, view, busy_guids, busy_names, member);
        },
        TypeClass::Structure { members } => {
            add_members(matcher, view, busy_guids, busy_names, members);
        },
        TypeClass::Enumeration { member_type } => {
            add_type(matcher, view, busy_guids, busy_names, member_type);
        },
        TypeClass::Union { members } => {
            add_members(matcher, view, busy_guids, busy_names, members);
        },
        TypeClass::Function { out_members, in_members } => {
            add_members(matcher, view, busy_guids, busy_names, out_members);
            add_members(matcher, view, busy_guids, busy_names, in_members);
        },
        TypeClass::Referrer { guid, name } => {
            let mut resolved = false;
            if let Some(g) = guid {
                if view.get_type_by_id(*g).is_none() {
                    if let Some(found) = type_by_guid(&matcher.types, g.guid) {
                        // A hash that is being resolved is not entered again.
                        if busy_guids.insert(g.guid) {
                            assert(open_keys(types.dom(), busy_guids@) =~= open_keys(
                                types.dom(),
                                old(busy_guids)@,
                            ).remove(g.guid));
                            add_type(matcher, view, busy_guids, busy_names, &found);
                            busy_guids.remove(&g.guid);
                            assert(busy_guids@ =~= old(busy_guids)@);
                        }
                        resolved = true;
                    }
                }
            }
            if let Some(n) = name {
                // A name is followed only while it is not being resolved.
                if !resolved && busy_names.insert(n.clone()) {
                    if let Some(found) = type_by_name(&matcher.named_types, n) {
                        assert(open_keys(names.dom(), busy_names@) =~= open_keys(
                            names.dom(),
                            old(busy_names)@,
                        ).remove(n@));
                        add_type(matcher, view, busy_guids, busy_names, &found);
                    }
                    busy_names.remove(n.as_str());
                    assert(busy_names@ =~= old(busy_names)@);
                }
            }
            let registered = match &ty.name {
                Some(own) => own.clone(),
                None => ty.guid.id_string(),
            };
            view.define_with_id(registered, ty.guid, ty.clone());
        },
    }
}

fn add_members(
    matcher: &Matcher,
    view: &mut TypeUniverse,
    busy_guids: &mut HashSet<u128>,
    busy_names: &mut StringHashSet,
    members: &Vec<Member>,
)
    requires
        matcher.types_by_guid().dom().finite(),
        matcher.types_by_name().dom().finite(),
    ensures
        final(view)@ == resolve_members(
            old(view)@,
            matcher.types_by_guid(),
            matcher.types_by_name(),
            open_keys(matcher.types_by_guid().dom(), old(busy_guids)@),
            open_keys(matcher.types_by_name().dom(), old(busy_names)@),
            members_model(*members),
            members.len() as nat,
        ),
        final(busy_guids)@ == old(busy_guids)@,
        final(busy_names)@ == old(busy_names)@,
    decreases
        open_keys(matcher.types_by_guid().dom(), old(busy_guids)@).len() + open_keys(
            matcher.types_by_name().dom(),
            old(busy_names)@,
        ).len(),
        members,
{
    let ghost types = matcher.types_by_guid();
    let ghost names = matcher.types_by_name();
    let ghost open_guids = open_keys(types.dom(), busy_guids@);
    let ghost open_names = open_keys(names.dom(), busy_names@);
    let ghost start = view@;
    let mut i: usize = 0;
    while i < members.len()
        invariant
            i <= members.len(),
            types == matcher.types_by_guid(),
            names == matcher.types_by_name(),
            types.dom().finite(),
            names.dom().finite(),
            busy_guids@ == old(busy_guids)@,
            busy_names@ == old(busy_names)@,
            open_guids == open_keys(types.dom(), busy_guids@),
            open_names == open_keys(names.dom(), busy_names@),
            view@ == resolve_members(
                start,
                types,
                names,
                open_guids,
                open_names,
                members_model(*members),
                i as nat,
            ),
        decreases members.len() - i,
    {
        add_type(matcher, view, busy_guids, busy_names, &members[i].ty);
        i += 1;
    }
}

impl Matcher {
    /// Registers `ty`, and before it every type that it depends on, in `view`. What was
    /// registered stays as it was, and afterwards nothing is left to register for `ty`.
    /// Where the store lists its types under their own hashes, a closed universe stays
    /// closed.
    pub fn add_type_to_view(&self, view: &mut TypeUniverse, ty: &Type)
        requires
            self.wf(),
        ensures
            final(view)@ == resolve(old(view)@, self.types_by_guid(), self.types_by_name(), ty@),
            old(view)@.is_prefix_of(final(view)@),
            settled(final(view)@, ty@),
            keyed_by_own_hash(self.types_by_guid()) && closed(
                old(view)@,
                self.types_by_guid(),
                self.types_by_name(),
            ) ==> closed(final(view)@, self.types_by_guid(), self.types_by_name()),
    {
        proof {
            if keyed_by_own_hash(self.types_by_guid()) && closed(
                view@,
                self.types_by_guid(),
                self.types_by_name(),
            ) {
                lemma_resolve_closes(view@, self.types_by_guid(), self.types_by_name(), ty@);
            }
            lemma_resolve_in(
                view@,
                self.types_by_guid(),
                self.types_by_name(),
                self.types_by_guid().dom(),
                self.types_by_name().dom(),
                ty@,
            );
        }
        let mut busy_guids: HashSet<u128> = HashSet::new();
        let mut busy_names = StringHashSet::new();
        assert(open_keys(self.types_by_guid().dom(), busy_guids@) =~= self.types_by_guid().dom());
        assert(open_keys(self.types_by_name().dom(), busy_names@) =~= self.types_by_name().dom());
        add_type(self, view, &mut busy_guids, &mut busy_names, ty);
    }
}

/// Nothing is left to register for `ty`: the type itself is registered, or it is no
/// referrer and nothing is left to register for the types embedded in it.
pub open spec fn settled(definitions: Seq<DefinitionModel>, ty: TypeModel) -> bool
    decreases ty,
{
    has_id(definitions, ty.guid) || match ty.class {
        ClassModel::Primitive => true,
        ClassModel::Pointer { child } => settled(definitions, *child),
        ClassModel::Array { member } => settled(definitions, *member),
        ClassModel::Structure { members } => forall|i: int|
            0 <= i < members.len() ==> settled(definitions, (#[trigger] members[i]).ty),
        ClassModel::Enumeration { member_type } => settled(definitions, *member_type),
        ClassModel::Union { members } => forall|i: int|
            0 <= i < members.len() ==> settled(definitions, (#[trigger] members[i]).ty),
        ClassModel::Function { out_members, in_members } => {
            &&& forall|i: int|
                0 <= i < out_members.len() ==> settled(definitions, (#[trigger] out_members[i]).ty)
            &&& forall|i: int|
                0 <= i < in_members.len() ==> settled(definitions, (#[trigger] in_members[i]).ty)
        },
        ClassModel::Referrer { .. } => false,
    }
}

/// An identifier that is registered stays registered when definitions are added.
pub proof fn lemma_has_id_stays(
    before: Seq<DefinitionModel>,
    after: Seq<DefinitionModel>,
    id: TypeGUID,
)
    requires
        before.is_prefix_of(after),
        has_id(before, id),
    ensures
        has_id(after, id),
{
    let i = choose|i: int| 0 <= i < before.len() && (#[trigger] before[i]).id == id;
    assert(after[i].id == id);
}

/// What is settled stays settled when definitions are added.
pub proof fn lemma_settled_stays(
    before: Seq<DefinitionModel>,
    after: Seq<DefinitionModel>,
    ty: TypeModel,
)
    requires
        before.is_prefix_of(after),
        settled(before, ty),
    ensures
        settled(after, ty),
    decreases ty,
{
    if has_id(before, ty.guid) {
        lemma_has_id_stays(before, after, ty.guid);
    } else {
        match ty.class {
            ClassModel::Primitive => {},
            ClassModel::Pointer { child } => lemma_settled_stays(before, after, *child),
            ClassModel::Array { member } => lemma_settled_stays(before, after, *member),
            ClassModel::Structure { members } => {
                assert forall|i: int| 0 <= i < members.len() implies settled(
                    after,
                    (#[trigger] members[i]).ty,
                ) by {
                    lemma_settled_stays(before, after, members[i].ty);
                }
            },
            ClassModel::Enumeration { member_type } => lemma_settled_stays(
                before,
                after,
                *member_type,
            ),
            ClassModel::Union { members } => {
                assert forall|i: int| 0 <= i < members.len() implies settled(
                    after,
                    (#[trigger] members[i]).ty,
                ) by {
                    lemma_settled_stays(before, after, members[i].ty);
                }
            },
            ClassModel::Function { out_members, in_members } => {
                assert forall|i: int| 0 <= i < out_members.len() implies settled(
                    after,
                    (#[trigger] out_members[i]).ty,
                ) by {
                    lemma_settled_stays(before, after, out_members[i].ty);
                }
                assert forall|i: int| 0 <= i < in_members.len() implies settled(
                    after,
                    (#[trigger] in_members[i]).ty,
                ) by {
                    lemma_settled_stays(before, after, in_members[i].ty);
                }
            },
            ClassModel::Referrer { .. } => {},
        }
    }
}

/// Registration adds at the end, makes the identifier registered, and registers no
/// identifier twice.
pub proof fn lemma_define(definitions: Seq<DefinitionModel>, definition: DefinitionModel)
    ensures
        definitions.is_prefix_of(define(definitions, definition)),
        has_id(define(definitions, definition), definition.id),
        distinct_ids(definitions) ==> distinct_ids(define(definitions, definition)),
{
    let after = define(definitions, definition);
    if !has_id(definitions, definition.id) {
        assert(after[definitions.len() as int].id == definition.id);
        if distinct_ids(definitions) {
            assert forall|i: int, j: int| 0 <= i < j < after.len() implies (#[trigger] after[i]).id
                != (#[trigger] after[j]).id by {
                if j == definitions.len() {
                    assert(definitions[i].id != definition.id);
                }
            }
        }
    }
}

/// Resolving a type keeps what is registered, registers no identifier twice, and leaves
/// nothing to register for the type.
pub proof fn lemma_resolve_in(
    definitions: Seq<DefinitionModel>,
    types: Map<u128, TypeModel>,
    names: Map<Seq<char>, TypeModel>,
    open_guids: Set<u128>,
    open_names: Set<Seq<char>>,
    ty: TypeModel,
)
    requires
        open_guids.finite(),
        open_names.finite(),
    ensures
        definitions.is_prefix_of(
            resolve_in(definitions, types, names, open_guids, open_names, ty),
        ),
        distinct_ids(definitions) ==> distinct_ids(
            resolve_in(definitions, types, names, open_guids, open_names, ty),
        ),
        settled(resolve_in(definitions, types, names, open_guids, open_names, ty), ty),
    decreases open_guids.len() + open_names.len(), ty, 0nat,
{
    let result = resolve_in(definitions, types, names, open_guids, open_names, ty);
    if !has_id(definitions, ty.guid) {
        match ty.class {
            ClassModel::Primitive => {},
            ClassModel::Pointer { child } => {
                lemma_resolve_in(definitions, types, names, open_guids, open_names, *child);
            },
            ClassModel::Array { member } => {
                lemma_resolve_in(definitions, types, names, open_guids, open_names, *member);
            },
            ClassModel::Structure { members } => {
                lemma_resolve_members(
                    definitions,
                    types,
                    names,
                    open_guids,
                    open_names,
                    members,
                    members.len(),
                );
            },
            ClassModel::Enumeration { member_type } => {
                lemma_resolve_in(definitions, types, names, open_guids, open_names, *member_type);
            },
            ClassModel::Union { members } => {
                lemma_resolve_members(
                    definitions,
                    types,
                    names,
                    open_guids,
                    open_names,
                    members,
                    members.len(),
                );
            },
            ClassModel::Function { out_members, in_members } => {
                let middle = resolve_members(
                    definitions,
                    types,
                    names,
                    open_guids,
                    open_names,
                    out_members,
                    out_members.len(),
                );
                lemma_resolve_members(
                    definitions,
                    types,
                    names,
                    open_guids,
                    open_names,
                    out_members,
                    out_members.len(),
                );
                lemma_resolve_members(
                    middle,
                    types,
                    names,
                    open_guids,
                    open_names,
                    in_members,
                    in_members.len(),
                );
                assert forall|i: int| 0 <= i < out_members.len() implies settled(
                    result,
                    (#[trigger] out_members[i]).ty,
                ) by {
                    lemma_settled_stays(middle, result, out_members[i].ty);
                }
            },
            ClassModel::Referrer { guid, name } => {
                let by_guid = answers_guid(definitions, types, guid);
                let after_guid = if by_guid && open_guids.contains(guid->0.guid) {
                    resolve_in(
                        definitions,
                        types,
                        names,
                        open_guids.remove(guid->0.guid),
                        open_names,
                        types[guid->0.guid],
                    )
                } else {
                    definitions
                };
                if by_guid && open_guids.contains(guid->0.guid) {
                    lemma_resolve_in(
                        definitions,
                        types,
                        names,
                        open_guids.remove(guid->0.guid),
                        open_names,
                        types[guid->0.guid],
                    );
                }
                let by_name = !by_guid && follows_name(names, open_names, name);
                let after_name = if by_name {
                    resolve_in(
                        after_guid,
                        types,
                        names,
                        open_guids,
                        open_names.remove(name->0),
                        names[name->0],
                    )
                } else {
                    after_guid
                };
                if by_name {
                    lemma_resolve_in(
                        after_guid,
                        types,
                        names,
                        open_guids,
                        open_names.remove(name->0),
                        names[name->0],
                    );
                }
                lemma_define(after_name, definition_of(ty));
            },
        }
    }
}

/// Resolving the types of members keeps what is registered, registers no identifier
/// twice, and leaves nothing to register for any of these types.
pub proof fn lemma_resolve_members(
    definitions: Seq<DefinitionModel>,
    types: Map<u128, TypeModel>,
    names: Map<Seq<char>, TypeModel>,
    open_guids: Set<u128>,
    open_names: Set<Seq<char>>,
    members: Seq<MemberModel>,
    n: nat,
)
    requires
        open_guids.finite(),
        open_names.finite(),
        n <= members.len(),
    ensures
        definitions.is_prefix_of(
            resolve_members(definitions, types, names, open_guids, open_names, members, n),
        ),
        distinct_ids(definitions) ==> distinct_ids(
            resolve_members(definitions, types, names, open_guids, open_names, members, n),
        ),
        forall|i: int|
            0 <= i < n ==> settled(
                resolve_members(definitions, types, names, open_guids, open_names, members, n),
                (#[trigger] members[i]).ty,
            ),
    decreases open_guids.len() + open_names.len(), members, n,
{
    let result = resolve_members(definitions, types, names, open_guids, open_names, members, n);
    if n > 0 {
        let earlier = resolve_members(
            definitions,
            types,
            names,
            open_guids,
            open_names,
            members,
            (n - 1) as nat,
        );
        lemma_resolve_members(
            definitions,
            types,
            names,
            open_guids,
            open_names,
            members,
            (n - 1) as nat,
        );
        lemma_resolve_in(earlier, types, names, open_guids, open_names, members[n - 1].ty);
        assert forall|i: int| 0 <= i < n implies settled(result, (#[trigger] members[i]).ty) by {
            if i < n - 1 {
                lemma_settled_stays(earlier, result, members[i].ty);
            }
        }
    }
}

/// Where nothing is left to register for a type, resolving it changes nothing.
pub proof fn lemma_settled_is_fixed(
    definitions: Seq<DefinitionModel>,
    types: Map<u128, TypeModel>,
    names: Map<Seq<char>, TypeModel>,
    open_guids: Set<u128>,
    open_names: Set<Seq<char>>,
    ty: TypeModel,
)
    requires
        open_guids.finite(),
        open_names.finite(),
        settled(definitions, ty),
    ensures
        resolve_in(definitions, types, names, open_guids, open_names, ty) == definitions,
    decreases ty, 0nat,
{
    if !has_id(definitions, ty.guid) {
        match ty.class {
            ClassModel::Primitive => {},
            ClassModel::Pointer { child } => {
                lemma_settled_is_fixed(definitions, types, names, open_guids, open_names, *child);
            },
            ClassModel::Array { member } => {
                lemma_settled_is_fixed(definitions, types, names, open_guids, open_names, *member);
            },
            ClassModel::Structure { members } => {
                lemma_settled_members_are_fixed(
                    definitions,
                    types,
                    names,
                    open_guids,
                    open_names,
                    members,
                    members.len(),
                );
            },
            ClassModel::Enumeration { member_type } => {
                lemma_settled_is_fixed(
                    definitions,
                    types,
                    names,
                    open_guids,
                    open_names,
                    *member_type,
                );
            },
            ClassModel::Union { members } => {
                lemma_settled_members_are_fixed(
                    definitions,
                    types,
                    names,
                    open_guids,
                    open_names,
                    members,
                    members.len(),
                );
            },
            ClassModel::Function { out_members, in_members } => {
                lemma_settled_members_are_fixed(
                    definitions,
                    types,
                    names,
                    open_guids,
                    open_names,
                    out_members,
                    out_members.len(),
                );
                lemma_settled_members_are_fixed(
                    definitions,
                    types,
                    names,
                    open_guids,
                    open_names,
                    in_members,
                    in_members.len(),
                );
            },
            ClassModel::Referrer { .. } => {},
        }
    }
}

/// Where nothing is left to register for the types of members, resolving them changes
/// nothing.
pub proof fn lemma_settled_members_are_fixed(
    definitions: Seq<DefinitionModel>,
    types: Map<u128, TypeModel>,
    names: Map<Seq<char>, TypeModel>,
    open_guids: Set<u128>,
    open_names: Set<Seq<char>>,
    members: Seq<MemberModel>,
    n: nat,
)
    requires
        open_guids.finite(),
        open_names.finite(),
        n <= members.len(),
        forall|i: int| 0 <= i < n ==> settled(definitions, (#[trigger] members[i]).ty),
    ensures
        resolve_members(definitions, types, names, open_guids, open_names, members, n)
            == definitions,
    decreases members, n,
{
    if n > 0 {
        lemma_settled_members_are_fixed(
            definitions,
            types,
            names,
            open_guids,
            open_names,
            members,
            (n - 1) as nat,
        );
        lemma_settled_is_fixed(
            definitions,
            types,
            names,
            open_guids,
            open_names,
            members[n - 1].ty,
        );
    }
}

/// Resolving is idempotent: to resolve a type once more changes nothing, so that the type
/// has one definition however often it is resolved.
pub proof fn lemma_resolve_twice(
    definitions: Seq<DefinitionModel>,
    types: Map<u128, TypeModel>,
    names: Map<Seq<char>, TypeModel>,
    ty: TypeModel,
)
    requires
        types.dom().finite(),
        names.dom().finite(),
    ensures
        resolve(resolve(definitions, types, names, ty), types, names, ty) == resolve(
            definitions,
            types,
            names,
            ty,
        ),
        distinct_ids(definitions) ==> distinct_ids(resolve(definitions, types, names, ty)),
        ty.class is Referrer ==> has_id(resolve(definitions, types, names, ty), ty.guid),
{
    let once = resolve(definitions, types, names, ty);
    lemma_resolve_in(definitions, types, names, types.dom(), names.dom(), ty);
    lemma_settled_is_fixed(once, types, names, types.dom(), names.dom(), ty);
}

/// A referrer that names itself is resolved once: where the store holds, under the name
/// that a referrer refers to, that referrer itself, resolving it registers the referrer
/// and nothing else.
pub proof fn lemma_self_reference_ends(
    definitions: Seq<DefinitionModel>,
    types: Map<u128, TypeModel>,
    names: Map<Seq<char>, TypeModel>,
    ty: TypeModel,
)
    requires
        types.dom().finite(),
        names.dom().finite(),
        ty.class matches ClassModel::Referrer { guid: None, name: Some(n) } && names.contains_key(n)
            && names[n] == ty,
        !has_id(definitions, ty.guid),
    ensures
        resolve(definitions, types, names, ty) == definitions.push(definition_of(ty)),
{
    let n = ty.class->Referrer_name->0;
    let inner = resolve_in(definitions, types, names, types.dom(), names.dom().remove(n), ty);
    assert(inner == definitions.push(definition_of(ty)));
    lemma_define(definitions, definition_of(ty));
}

/// The store lists every type under the type's own hash.
pub open spec fn keyed_by_own_hash(types: Map<u128, TypeModel>) -> bool {
    forall|g: u128| #[trigger] types.contains_key(g) ==> types[g].guid.guid == g
}

/// What a referrer depends on through the store is there: nothing is left to register
/// for the type that the store holds under the referrer's hash or, where it holds none,
/// under the referrer's name. A key that is being resolved is let off: its type is
/// settled when that is done. A type of another class depends on nothing through the
/// store.
pub open spec fn dependency_met(
    definitions: Seq<DefinitionModel>,
    types: Map<u128, TypeModel>,
    names: Map<Seq<char>, TypeModel>,
    open_guids: Set<u128>,
    open_names: Set<Seq<char>>,
    ty: TypeModel,
) -> bool {
    match ty.class {
        ClassModel::Referrer { guid, name } => if guid is Some && types.contains_key(
            guid->0.guid,
        ) {
            settled(definitions, types[guid->0.guid]) || !open_guids.contains(guid->0.guid)
        } else if name is Some && names.contains_key(name->0) {
            settled(definitions, names[name->0]) || !open_names.contains(name->0)
        } else {
            true
        },
        _ => true,
    }
}

/// Every registered type has what it depends on through the store, but for the keys that
/// are being resolved.
pub open spec fn closed_but(
    definitions: Seq<DefinitionModel>,
    types: Map<u128, TypeModel>,
    names: Map<Seq<char>, TypeModel>,
    open_guids: Set<u128>,
    open_names: Set<Seq<char>>,
) -> bool {
    forall|i: int|
        0 <= i < definitions.len() ==> dependency_met(
            definitions,
            types,
            names,
            open_guids,
            open_names,
            (#[trigger] definitions[i]).ty,
        )
}

/// The universe is closed under the store: for every registered referrer, nothing is
/// left to register for the type that the store holds under its hash or, where it holds
/// none, under its name.
pub open spec fn closed(
    definitions: Seq<DefinitionModel>,
    types: Map<u128, TypeModel>,
    names: Map<Seq<char>, TypeModel>,
) -> bool {
    closed_but(definitions, types, names, types.dom(), names.dom())
}

proof fn lemma_dependency_met_stays(
    before: Seq<DefinitionModel>,
    after: Seq<DefinitionModel>,
    types: Map<u128, TypeModel>,
    names: Map<Seq<char>, TypeModel>,
    open_guids: Set<u128>,
    open_names: Set<Seq<char>>,
    ty: TypeModel,
)
    requires
        before.is_prefix_of(after),
        dependency_met(before, types, names, open_guids, open_names, ty),
    ensures
        dependency_met(after, types, names, open_guids, open_names, ty),
{
    if let ClassModel::Referrer { guid, name } = ty.class {
        if guid is Some && types.contains_key(guid->0.guid) {
            if settled(before, types[guid->0.guid]) {
                lemma_settled_stays(before, after, types[guid->0.guid]);
            }
        } else if name is Some && names.contains_key(name->0) {
            if settled(before, names[name->0]) {
                lemma_settled_stays(before, after, names[name->0]);
            }
        }
    }
}

/// What was closed stays closed when a type is registered whose dependency is met.
proof fn lemma_closed_but_define(
    before: Seq<DefinitionModel>,
    types: Map<u128, TypeModel>,
    names: Map<Seq<char>, TypeModel>,
    open_guids: Set<u128>,
    open_names: Set<Seq<char>>,
    ty: TypeModel,
)
    requires
        closed_but(before, types, names, open_guids, open_names),
        dependency_met(before, types, names, open_guids, open_names, ty),
    ensures
        closed_but(define(before, definition_of(ty)), types, names, open_guids, open_names),
{
    let after = define(before, definition_of(ty));
    lemma_define(before, definition_of(ty));
    assert forall|i: int| 0 <= i < after.len() implies dependency_met(
        after,
        types,
        names,
        open_guids,
        open_names,
        (#[trigger] after[i]).ty,
    ) by {
        if i < before.len() {
            assert(after[i] == before[i]);
            lemma_dependency_met_stays(before, after, types, names, open_guids, open_names, before[i].ty);
        } else {
            lemma_dependency_met_stays(before, after, types, names, open_guids, open_names, ty);
        }
    }
}

/// Closing a key again: what is closed but for one more key, whose type is settled, is
/// closed.
proof fn lemma_closed_but_guid_done(
    definitions: Seq<DefinitionModel>,
    types: Map<u128, TypeModel>,
    names: Map<Seq<char>, TypeModel>,
    open_guids: Set<u128>,
    open_names: Set<Seq<char>>,
    g: u128,
)
    requires
        closed_but(definitions, types, names, open_guids.remove(g), open_names),
        types.contains_key(g),
        settled(definitions, types[g]),
    ensures
        closed_but(definitions, types, names, open_guids, open_names),
{
    assert forall|i: int| 0 <= i < definitions.len() implies dependency_met(
        definitions,
        types,
        names,
        open_guids,
        open_names,
        (#[trigger] definitions[i]).ty,
    ) by {
        assert(dependency_met(
            definitions,
            types,
            names,
            open_guids.remove(g),
            open_names,
            definitions[i].ty,
        ));
    }
}

proof fn lemma_closed_but_name_done(
    definitions: Seq<DefinitionModel>,
    types: Map<u128, TypeModel>,
    names: Map<Seq<char>, TypeModel>,
    open_guids: Set<u128>,
    open_names: Set<Seq<char>>,
    n: Seq<char>,
)
    requires
        closed_but(definitions, types, names, open_guids, open_names.remove(n)),
        names.contains_key(n),
        settled(definitions, names[n]),
    ensures
        closed_but(definitions, types, names, open_guids, open_names),
{
    assert forall|i: int| 0 <= i < definitions.len() implies dependency_met(
        definitions,
        types,
        names,
        open_guids,
        open_names,
        (#[trigger] definitions[i]).ty,
    ) by {
        assert(dependency_met(
            definitions,
            types,
            names,
            open_guids,
            open_names.remove(n),
            definitions[i].ty,
        ));
    }
}

/// What is closed but for some keys is closed but for more keys.
proof fn lemma_closed_but_fewer_open(
    definitions: Seq<DefinitionModel>,
    types: Map<u128, TypeModel>,
    names: Map<Seq<char>, TypeModel>,
    open_guids: Set<u128>,
    open_names: Set<Seq<char>>,
    fewer_guids: Set<u128>,
    fewer_names: Set<Seq<char>>,
)
    requires
        closed_but(definitions, types, names, open_guids, open_names),
        fewer_guids.subset_of(open_guids),
        fewer_names.subset_of(open_names),
    ensures
        closed_but(definitions, types, names, fewer_guids, fewer_names),
{
    assert forall|i: int| 0 <= i < definitions.len() implies dependency_met(
        definitions,
        types,
        names,
        fewer_guids,
        fewer_names,
        (#[trigger] definitions[i]).ty,
    ) by {
        assert(dependency_met(definitions, types, names, open_guids, open_names, definitions[i].ty));
    }
}

/// Resolving a type keeps the universe closed, but for the keys that are being resolved.
pub proof fn lemma_resolve_in_closed(
    definitions: Seq<DefinitionModel>,
    types: Map<u128, TypeModel>,
    names: Map<Seq<char>, TypeModel>,
    open_guids: Set<u128>,
    open_names: Set<Seq<char>>,
    ty: TypeModel,
)
    requires
        open_guids.finite(),
        open_names.finite(),
        keyed_by_own_hash(types),
        closed_but(definitions, types, names, open_guids, open_names),
    ensures
        closed_but(
            resolve_in(definitions, types, names, open_guids, open_names, ty),
            types,
            names,
            open_guids,
            open_names,
        ),
    decreases open_guids.len() + open_names.len(), ty, 0nat,
{
    if !has_id(definitions, ty.guid) {
        match ty.class {
            ClassModel::Primitive => {},
            ClassModel::Pointer { child } => {
                lemma_resolve_in_closed(definitions, types, names, open_guids, open_names, *child);
            },
            ClassModel::Array { member } => {
                lemma_resolve_in_closed(definitions, types, names, open_guids, open_names, *member);
            },
            ClassModel::Structure { members } => {
                lemma_resolve_members_closed(
                    definitions,
                    types,
                    names,
                    open_guids,
                    open_names,
                    members,
                    members.len(),
                );
            },
            ClassModel::Enumeration { member_type } => {
                lemma_resolve_in_closed(
                    definitions,
                    types,
                    names,
                    open_guids,
                    open_names,
                    *member_type,
                );
            },
            ClassModel::Union { members } => {
                lemma_resolve_members_closed(
                    definitions,
                    types,
                    names,
                    open_guids,
                    open_names,
                    members,
                    members.len(),
                );
            },
            ClassModel::Function { out_members, in_members } => {
                let middle = resolve_members(
                    definitions,
                    types,
                    names,
                    open_guids,
                    open_names,
                    out_members,
                    out_members.len(),
                );
                lemma_resolve_members_closed(
                    definitions,
                    types,
                    names,
                    open_guids,
                    open_names,
                    out_members,
                    out_members.len(),
                );
                lemma_resolve_members_closed(
                    middle,
                    types,
                    names,
                    open_guids,
                    open_names,
                    in_members,
                    in_members.len(),
                );
            },
            ClassModel::Referrer { guid, name } => {
                let by_guid = answers_guid(definitions, types, guid);
                let entered = by_guid && open_guids.contains(guid->0.guid);
                let after_guid = if entered {
                    resolve_in(
                        definitions,
                        types,
                        names,
                        open_guids.remove(guid->0.guid),
                        open_names,
                        types[guid->0.guid],
                    )
                } else {
                    definitions
                };
                if entered {
                    let g = guid->0.guid;
                    lemma_closed_but_fewer_open(
                        definitions,
                        types,
                        names,
                        open_guids,
                        open_names,
                        open_guids.remove(g),
                        open_names,
                    );
                    lemma_resolve_in_closed(
                        definitions,
                        types,
                        names,
                        open_guids.remove(g),
                        open_names,
                        types[g],
                    );
                    lemma_resolve_in(
                        definitions,
                        types,
                        names,
                        open_guids.remove(g),
                        open_names,
                        types[g],
                    );
                    lemma_closed_but_guid_done(after_guid, types, names, open_guids, open_names, g);
                }
                let by_name = !by_guid && follows_name(names, open_names, name);
                let after_name = if by_name {
                    resolve_in(
                        after_guid,
                        types,
                        names,
                        open_guids,
                        open_names.remove(name->0),
                        names[name->0],
                    )
                } else {
                    after_guid
                };
                if by_name {
                    let n = name->0;
                    lemma_closed_but_fewer_open(
                        after_guid,
                        types,
                        names,
                        open_guids,
                        open_names,
                        open_guids,
                        open_names.remove(n),
                    );
                    lemma_resolve_in_closed(
                        after_guid,
                        types,
                        names,
                        open_guids,
                        open_names.remove(n),
                        names[n],
                    );
                    lemma_resolve_in(
                        after_guid,
                        types,
                        names,
                        open_guids,
                        open_names.remove(n),
                        names[n],
                    );
                    lemma_closed_but_name_done(after_name, types, names, open_guids, open_names, n);
                }
                if guid is Some && types.contains_key(guid->0.guid) {
                    let g = guid->0;
                    if has_id(definitions, g) {
                        assert(types[g.guid].guid == g);
                        lemma_has_id_stays(definitions, after_name, g);
                    }
                }
                lemma_closed_but_define(after_name, types, names, open_guids, open_names, ty);
            },
        }
    }
}

/// Resolving the types of members keeps the universe closed, but for the keys that are
/// being resolved.
pub proof fn lemma_resolve_members_closed(
    definitions: Seq<DefinitionModel>,
    types: Map<u128, TypeModel>,
    names: Map<Seq<char>, TypeModel>,
    open_guids: Set<u128>,
    open_names: Set<Seq<char>>,
    members: Seq<MemberModel>,
    n: nat,
)
    requires
        open_guids.finite(),
        open_names.finite(),
        n <= members.len(),
        keyed_by_own_hash(types),
        closed_but(definitions, types, names, open_guids, open_names),
    ensures
        closed_but(
            resolve_members(definitions, types, names, open_guids, open_names, members, n),
            types,
            names,
            open_guids,
            open_names,
        ),
    decreases open_guids.len() + open_names.len(), members, n,
{
    if n > 0 {
        let earlier = resolve_members(
            definitions,
            types,
            names,
            open_guids,
            open_names,
            members,
            (n - 1) as nat,
        );
        lemma_resolve_members_closed(
            definitions,
            types,
            names,
            open_guids,
            open_names,
            members,
            (n - 1) as nat,
        );
        lemma_resolve_in_closed(earlier, types, names, open_guids, open_names, members[n - 1].ty);
    }
}

/// Resolving closes the universe. In a store that lists every type under its own hash,
/// resolving a type in a closed universe, such as the empty one, gives a closed
/// universe in which nothing is left to register for the type: the type, what it
/// embeds, and whatever a registered referrer depends on through the store are all
/// settled.
pub proof fn lemma_resolve_closes(
    definitions: Seq<DefinitionModel>,
    types: Map<u128, TypeModel>,
    names: Map<Seq<char>, TypeModel>,
    ty: TypeModel,
)
    requires
        types.dom().finite(),
        names.dom().finite(),
        keyed_by_own_hash(types),
        closed(definitions, types, names),
    ensures
        closed(resolve(definitions, types, names, ty), types, names),
        settled(resolve(definitions, types, names, ty), ty),
        closed(Seq::<DefinitionModel>::empty(), types, names),
{
    lemma_resolve_in_closed(definitions, types, names, types.dom(), names.dom(), ty);
    lemma_resolve_in(definitions, types, names, types.dom(), names.dom(), ty);
}

/// `to` is what `from` leads to in one step: a type that `from` embeds or, for a
/// referrer, the type that the store holds under its hash or, where it holds none, under
/// its name.
pub open spec fn leads_to(
    types: Map<u128, TypeModel>,
    names: Map<Seq<char>, TypeModel>,
    from: TypeModel,
    to: TypeModel,
) -> bool {
    match from.class {
        ClassModel::Primitive => false,
        ClassModel::Pointer { child } => to == *child,
        ClassModel::Array { member } => to == *member,
        ClassModel::Structure { members } => exists|i: int|
            0 <= i < members.len() && (#[trigger] members[i]).ty == to,
        ClassModel::Enumeration { member_type } => to == *member_type,
        ClassModel::Union { members } => exists|i: int|
            0 <= i < members.len() && (#[trigger] members[i]).ty == to,
        ClassModel::Function { out_members, in_members } => {
            ||| exists|i: int| 0 <= i < out_members.len() && (#[trigger] out_members[i]).ty == to
            ||| exists|i: int| 0 <= i < in_members.len() && (#[trigger] in_members[i]).ty == to
        },
        ClassModel::Referrer { guid, name } => if guid is Some && types.contains_key(
            guid->0.guid,
        ) {
            to == types[guid->0.guid]
        } else if name is Some && names.contains_key(name->0) {
            to == names[name->0]
        } else {
            false
        },
    }
}

/// `to` is reached from `from` in `n` steps.
pub open spec fn reaches(
    types: Map<u128, TypeModel>,
    names: Map<Seq<char>, TypeModel>,
    from: TypeModel,
    to: TypeModel,
    n: nat,
) -> bool
    decreases n,
{
    if n == 0 {
        from == to
    } else {
        exists|mid: TypeModel|
            reaches(types, names, from, mid, (n - 1) as nat) && #[trigger] leads_to(
                types,
                names,
                mid,
                to,
            )
    }
}

/// With every type the set holds what the type embeds, and with every referrer the types
/// that the store holds under its hash and under its name.
pub open spec fn holds_what_follows(
    all: Set<TypeModel>,
    types: Map<u128, TypeModel>,
    names: Map<Seq<char>, TypeModel>,
) -> bool {
    forall|t: TypeModel| #[trigger] all.contains(t) ==> follows_within(all, types, names, t)
}

/// What follows on `ty` is in the set.
pub open spec fn follows_within(
    all: Set<TypeModel>,
    types: Map<u128, TypeModel>,
    names: Map<Seq<char>, TypeModel>,
    ty: TypeModel,
) -> bool {
    match ty.class {
        ClassModel::Primitive => true,
        ClassModel::Pointer { child } => all.contains(*child),
        ClassModel::Array { member } => all.contains(*member),
        ClassModel::Structure { members } => forall|i: int|
            0 <= i < members.len() ==> all.contains((#[trigger] members[i]).ty),
        ClassModel::Enumeration { member_type } => all.contains(*member_type),
        ClassModel::Union { members } => forall|i: int|
            0 <= i < members.len() ==> all.contains((#[trigger] members[i]).ty),
        ClassModel::Function { out_members, in_members } => {
            &&& forall|i: int|
                0 <= i < out_members.len() ==> all.contains((#[trigger] out_members[i]).ty)
            &&& forall|i: int|
                0 <= i < in_members.len() ==> all.contains((#[trigger] in_members[i]).ty)
        },
        ClassModel::Referrer { guid, name } => {
            &&& guid is Some && types.contains_key(guid->0.guid) ==> all.contains(
                types[guid->0.guid],
            )
            &&& name is Some && names.contains_key(name->0) ==> all.contains(names[name->0])
        },
    }
}

/// The content hashes tell the types of the set apart.
pub open spec fn told_apart(all: Set<TypeModel>) -> bool {
    forall|a: TypeModel, b: TypeModel|
        #![trigger all.contains(a), all.contains(b)]
        all.contains(a) && all.contains(b) && a.guid == b.guid ==> a == b
}

/// Every registered type is a referrer of the set, registered under its own hash and
/// name.
pub open spec fn registered_within(definitions: Seq<DefinitionModel>, all: Set<TypeModel>) -> bool {
    forall|i: int|
        0 <= i < definitions.len() ==> {
            &&& all.contains((#[trigger] definitions[i]).ty)
            &&& definitions[i].ty.class is Referrer
            &&& definitions[i] == definition_of(definitions[i].ty)
        }
}

/// Resolving registers referrers only, each under its own hash and name, and none from
/// outside a set that holds the type and what follows on its types.
pub proof fn lemma_resolve_in_within(
    definitions: Seq<DefinitionModel>,
    types: Map<u128, TypeModel>,
    names: Map<Seq<char>, TypeModel>,
    open_guids: Set<u128>,
    open_names: Set<Seq<char>>,
    ty: TypeModel,
    all: Set<TypeModel>,
)
    requires
        open_guids.finite(),
        open_names.finite(),
        holds_what_follows(all, types, names),
        all.contains(ty),
        registered_within(definitions, all),
    ensures
        registered_within(resolve_in(definitions, types, names, open_guids, open_names, ty), all),
    decreases open_guids.len() + open_names.len(), ty, 0nat,
{
    assert(follows_within(all, types, names, ty));
    if !has_id(definitions, ty.guid) {
        match ty.class {
            ClassModel::Primitive => {},
            ClassModel::Pointer { child } => {
                lemma_resolve_in_within(definitions, types, names, open_guids, open_names, *child, all);
            },
            ClassModel::Array { member } => {
                lemma_resolve_in_within(definitions, types, names, open_guids, open_names, *member, all);
            },
            ClassModel::Structure { members } => {
                lemma_resolve_members_within(
                    definitions,
                    types,
                    names,
                    open_guids,
                    open_names,
                    members,
                    members.len(),
                    all,
                );
            },
            ClassModel::Enumeration { member_type } => {
                lemma_resolve_in_within(
                    definitions,
                    types,
                    names,
                    open_guids,
                    open_names,
                    *member_type,
                    all,
                );
            },
            ClassModel::Union { members } => {
                lemma_resolve_members_within(
                    definitions,
                    types,
                    names,
                    open_guids,
                    open_names,
                    members,
                    members.len(),
                    all,
                );
            },
            ClassModel::Function { out_members, in_members } => {
                let middle = resolve_members(
                    definitions,
                    types,
                    names,
                    open_guids,
                    open_names,
                    out_members,
                    out_members.len(),
                );
                lemma_resolve_members_within(
                    definitions,
                    types,
                    names,
                    open_guids,
                    open_names,
                    out_members,
                    out_members.len(),
                    all,
                );
                lemma_resolve_members_within(
                    middle,
                    types,
                    names,
                    open_guids,
                    open_names,
                    in_members,
                    in_members.len(),
                    all,
                );
            },
            ClassModel::Referrer { guid, name } => {
                let by_guid = answers_guid(definitions, types, guid);
                let entered = by_guid && open_guids.contains(guid->0.guid);
                let after_guid = if entered {
                    resolve_in(
                        definitions,
                        types,
                        names,
                        open_guids.remove(guid->0.guid),
                        open_names,
                        types[guid->0.guid],
                    )
                } else {
                    definitions
                };
                if entered {
                    lemma_resolve_in_within(
                        definitions,
                        types,
                        names,
                        open_guids.remove(guid->0.guid),
                        open_names,
                        types[guid->0.guid],
                        all,
                    );
                }
                let by_name = !by_guid && follows_name(names, open_names, name);
                let after_name = if by_name {
                    resolve_in(
                        after_guid,
                        types,
                        names,
                        open_guids,
                        open_names.remove(name->0),
                        names[name->0],
                    )
                } else {
                    after_guid
                };
                if by_name {
                    lemma_resolve_in_within(
                        after_guid,
                        types,
                        names,
                        open_guids,
                        open_names.remove(name->0),
                        names[name->0],
                        all,
                    );
                }
                let result = define(after_name, definition_of(ty));
                assert forall|i: int| 0 <= i < result.len() implies {
                    &&& all.contains((#[trigger] result[i]).ty)
                    &&& result[i].ty.class is Referrer
                    &&& result[i] == definition_of(result[i].ty)
                } by {
                    if i < after_name.len() {
                        assert(result[i] == after_name[i]);
                    }
                }
            },
        }
    }
}

/// Resolving the types of members registers referrers only, each under its own hash and
/// name, and none from outside a set that holds these types and what follows on its
/// types.
pub proof fn lemma_resolve_members_within(
    definitions: Seq<DefinitionModel>,
    types: Map<u128, TypeModel>,
    names: Map<Seq<char>, TypeModel>,
    open_guids: Set<u128>,
    open_names: Set<Seq<char>>,
    members: Seq<MemberModel>,
    n: nat,
    all: Set<TypeModel>,
)
    requires
        open_guids.finite(),
        open_names.finite(),
        n <= members.len(),
        holds_what_follows(all, types, names),
        forall|i: int| 0 <= i < members.len() ==> all.contains((#[trigger] members[i]).ty),
        registered_within(definitions, all),
    ensures
        registered_within(
            resolve_members(definitions, types, names, open_guids, open_names, members, n),
            all,
        ),
    decreases open_guids.len() + open_names.len(), members, n,
{
    if n > 0 {
        let earlier = resolve_members(
            definitions,
            types,
            names,
            open_guids,
            open_names,
            members,
            (n - 1) as nat,
        );
        lemma_resolve_members_within(
            definitions,
            types,
            names,
            open_guids,
            open_names,
            members,
            (n - 1) as nat,
            all,
        );
        lemma_resolve_in_within(
            earlier,
            types,
            names,
            open_guids,
            open_names,
            members[n - 1].ty,
            all,
        );
    }
}

/// In a closed universe of referrers whose hashes tell them apart, what a settled type
/// leads to is settled.
proof fn lemma_settled_step(
    definitions: Seq<DefinitionModel>,
    types: Map<u128, TypeModel>,
    names: Map<Seq<char>, TypeModel>,
    all: Set<TypeModel>,
    from: TypeModel,
    to: TypeModel,
)
    requires
        closed(definitions, types, names),
        registered_within(definitions, all),
        told_apart(all),
        all.contains(from),
        settled(definitions, from),
        leads_to(types, names, from, to),
    ensures
        settled(definitions, to),
{
    if has_id(definitions, from.guid) {
        let i = choose|i: int|
            0 <= i < definitions.len() && (#[trigger] definitions[i]).id == from.guid;
        assert(all.contains(definitions[i].ty));
        assert(definitions[i].ty == from);
        assert(dependency_met(definitions, types, names, types.dom(), names.dom(), from));
    }
}

/// In a closed universe of referrers whose hashes tell them apart, nothing is left to
/// register for whatever a settled type reaches, and every referrer that it reaches is
/// registered under the referrer's own identifier and name.
pub proof fn lemma_closed_holds_what_is_reached(
    definitions: Seq<DefinitionModel>,
    types: Map<u128, TypeModel>,
    names: Map<Seq<char>, TypeModel>,
    all: Set<TypeModel>,
    from: TypeModel,
    reached: TypeModel,
    n: nat,
)
    requires
        closed(definitions, types, names),
        registered_within(definitions, all),
        holds_what_follows(all, types, names),
        told_apart(all),
        all.contains(from),
        settled(definitions, from),
        reaches(types, names, from, reached, n),
    ensures
        all.contains(reached),
        settled(definitions, reached),
        reached.class is Referrer ==> definitions.contains(definition_of(reached)),
    decreases n,
{
    if n > 0 {
        let mid = choose|mid: TypeModel|
            reaches(types, names, from, mid, (n - 1) as nat) && #[trigger] leads_to(
                types,
                names,
                mid,
                reached,
            );
        lemma_closed_holds_what_is_reached(
            definitions,
            types,
            names,
            all,
            from,
            mid,
            (n - 1) as nat,
        );
        assert(follows_within(all, types, names, mid));
        lemma_settled_step(definitions, types, names, all, mid, reached);
    }
    if reached.class is Referrer {
        let i = choose|i: int|
            0 <= i < definitions.len() && (#[trigger] definitions[i]).id == reached.guid;
        assert(all.contains(definitions[i].ty));
        assert(definitions[i].ty == reached);
    }
}

/// Everything that the resolved type reaches is registered. In a store that lists every
/// type under its own hash, and among types whose hashes tell them apart, resolving a
/// type in the empty universe leaves nothing to register for any type that it reaches
/// through what types embed and what referrers name, and registers every referrer among
/// them under the referrer's own identifier and name.
pub proof fn lemma_resolve_registers_what_is_reached(
    types: Map<u128, TypeModel>,
    names: Map<Seq<char>, TypeModel>,
    all: Set<TypeModel>,
    ty: TypeModel,
    reached: TypeModel,
    n: nat,
)
    requires
        types.dom().finite(),
        names.dom().finite(),
        keyed_by_own_hash(types),
        holds_what_follows(all, types, names),
        told_apart(all),
        all.contains(ty),
        reaches(types, names, ty, reached, n),
    ensures
        settled(resolve(Seq::<DefinitionModel>::empty(), types, names, ty), reached),
        reached.class is Referrer ==> resolve(
            Seq::<DefinitionModel>::empty(),
            types,
            names,
            ty,
        ).contains(definition_of(reached)),
{
    let nothing = Seq::<DefinitionModel>::empty();
    let result = resolve(nothing, types, names, ty);
    lemma_resolve_closes(nothing, types, names, ty);
    lemma_resolve_in_within(nothing, types, names, types.dom(), names.dom(), ty, all);
    lemma_closed_holds_what_is_reached(result, types, names, all, ty, reached, n);
}

} // verus!
