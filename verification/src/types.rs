//! The type graph of a signature bundle: executable types and their mathematical models.

use crate::guid::TypeGUID;
use vstd::prelude::*;
use vstd::std_specs::cmp::PartialEqSpecImpl;

verus! {

/// One member of a structure, a union, or a function's parameter list.
#[derive(Debug)]
pub struct Member {
    pub name: Option<String>,
    pub offset: u64,
    pub ty: Type,
}

/// The class of a type. Only `Referrer` names another type instead of embedding it.
#[derive(Debug)]
pub enum TypeClass {
    Primitive,
    Pointer { child: Box<Type> },
    Array { member: Box<Type> },
    Structure { members: Vec<Member> },
    Enumeration { member_type: Box<Type> },
    Union { members: Vec<Member> },
    Function { out_members: Vec<Member>, in_members: Vec<Member> },
    Referrer { guid: Option<TypeGUID>, name: Option<String> },
}

/// A type together with its content hash.
#[derive(Debug)]
pub struct Type {
    pub guid: TypeGUID,
    pub name: Option<String>,
    pub class: TypeClass,
}

/// What a `Member` stands for.
pub struct MemberModel {
    pub name: Option<Seq<char>>,
    pub offset: u64,
    pub ty: TypeModel,
}

/// What a `TypeClass` stands for.
pub enum ClassModel {
    Primitive,
    Pointer { child: Box<TypeModel> },
    Array { member: Box<TypeModel> },
    Structure { members: Seq<MemberModel> },
    Enumeration { member_type: Box<TypeModel> },
    Union { members: Seq<MemberModel> },
    Function { out_members: Seq<MemberModel>, in_members: Seq<MemberModel> },
    Referrer { guid: Option<TypeGUID>, name: Option<Seq<char>> },
}

/// What a `Type` stands for.
pub struct TypeModel {
    pub guid: TypeGUID,
    pub name: Option<Seq<char>>,
    pub class: ClassModel,
}

/// What an optional name stands for.
pub open spec fn name_model(name: Option<String>) -> Option<Seq<char>> {
    match name {
        Some(s) => Some(s@),
        None => None,
    }
}

/// What a type stands for.
pub open spec fn type_model(ty: Type) -> TypeModel
    decreases ty,
{
    TypeModel { guid: ty.guid, name: name_model(ty.name), class: class_model(ty.class) }
}

/// What a class stands for.
pub open spec fn class_model(class: TypeClass) -> ClassModel
    decreases class,
{
    match class {
        TypeClass::Primitive => ClassModel::Primitive,
        TypeClass::Pointer { child } => ClassModel::Pointer { child: Box::new(type_model(*child)) },
        TypeClass::Array { member } => ClassModel::Array { member: Box::new(type_model(*member)) },
        TypeClass::Structure { members } => ClassModel::Structure {
            members: members_model(members),
        },
        TypeClass::Enumeration { member_type } => ClassModel::Enumeration {
            member_type: Box::new(type_model(*member_type)),
        },
        TypeClass::Union { members } => ClassModel::Union { members: members_model(members) },
        TypeClass::Function { out_members, in_members } => ClassModel::Function {
            out_members: members_model(out_members),
            in_members: members_model(in_members),
        },
        TypeClass::Referrer { guid, name } => ClassModel::Referrer { guid, name: name_model(name) },
    }
}

/// What a list of members stands for.
pub open spec fn members_model(members: Vec<Member>) -> Seq<MemberModel>
    decreases members,
{
    Seq::new(
        members.len() as nat,
        |i: int|
            if 0 <= i < members.len() {
                member_model(members[i])
            } else {
                arbitrary()
            },
    )
}

/// What a member stands for.
pub open spec fn member_model(member: Member) -> MemberModel
    decreases member,
{
    MemberModel { name: name_model(member.name), offset: member.offset, ty: type_model(member.ty) }
}

impl View for Member {
    type V = MemberModel;

    open spec fn view(&self) -> MemberModel {
        member_model(*self)
    }
}

impl View for TypeClass {
    type V = ClassModel;

    open spec fn view(&self) -> ClassModel {
        class_model(*self)
    }
}

impl View for Type {
    type V = TypeModel;

    open spec fn view(&self) -> TypeModel {
        type_model(*self)
    }
}

/// A copy of an optional name.
pub(crate) fn clone_name(name: &Option<String>) -> (r: Option<String>)
    ensures
        name_model(r) == name_model(*name),
{
    match name {
        Some(s) => Some(s.clone()),
        None => None,
    }
}

/// Whether two optional names hold the same text.
pub(crate) fn same_name(a: &Option<String>, b: &Option<String>) -> (r: bool)
    ensures
        r == (name_model(*a) == name_model(*b)),
{
    match a {
        Some(x) => match b {
            Some(y) => *x == *y,
            None => false,
        },
        None => b.is_none(),
    }
}

fn clone_members(members: &Vec<Member>) -> (r: Vec<Member>)
    ensures
        members_model(r) == members_model(*members),
    decreases members,
{
    let mut out: Vec<Member> = Vec::new();
    let mut i: usize = 0;
    while i < members.len()
        invariant
            i <= members.len(),
            out.len() == i,
            forall|j: int| 0 <= j < i ==> member_model(#[trigger] out[j]) == member_model(members[j]),
        decreases members.len() - i,
    {
        let m = clone_member(&members[i]);
        out.push(m);
        i += 1;
    }
    out
}

fn clone_member(member: &Member) -> (r: Member)
    ensures
        r@ == member@,
    decreases member,
{
    Member { name: clone_name(&member.name), offset: member.offset, ty: clone_type(&member.ty) }
}

fn clone_class(class: &TypeClass) -> (r: TypeClass)
    ensures
        r@ == class@,
    decreases class,
{
    match class {
        TypeClass::Primitive => TypeClass::Primitive,
        TypeClass::Pointer { child } => TypeClass::Pointer { child: Box::new(clone_type(child)) },
        TypeClass::Array { member } => TypeClass::Array { member: Box::new(clone_type(member)) },
        TypeClass::Structure { members } => TypeClass::Structure {
            members: clone_members(members),
        },
        TypeClass::Enumeration { member_type } => TypeClass::Enumeration {
            member_type: Box::new(clone_type(member_type)),
        },
        TypeClass::Union { members } => TypeClass::Union { members: clone_members(members) },
        TypeClass::Function { out_members, in_members } => TypeClass::Function {
            out_members: clone_members(out_members),
            in_members: clone_members(in_members),
        },
        TypeClass::Referrer { guid, name } => TypeClass::Referrer {
            guid: *guid,
            name: clone_name(name),
        },
    }
}

fn clone_type(ty: &Type) -> (r: Type)
    ensures
        r@ == ty@,
    decreases ty,
{
    Type { guid: ty.guid, name: clone_name(&ty.name), class: clone_class(&ty.class) }
}

fn same_members(a: &Vec<Member>, b: &Vec<Member>) -> (r: bool)
    ensures
        r == (members_model(*a) == members_model(*b)),
    decreases a,
{
    if a.len() != b.len() {
        assert(members_model(*a).len() != members_model(*b).len());
        return false;
    }
    let mut i: usize = 0;
    while i < a.len()
        invariant
            i <= a.len(),
            a.len() == b.len(),
            forall|j: int| 0 <= j < i ==> member_model(#[trigger] a[j]) == member_model(b[j]),
        decreases a.len() - i,
    {
        if !same_member(&a[i], &b[i]) {
            assert(members_model(*a)[i as int] != members_model(*b)[i as int]);
            return false;
        }
        i += 1;
    }
    assert(members_model(*a) =~= members_model(*b));
    true
}

fn same_member(a: &Member, b: &Member) -> (r: bool)
    ensures
        r == (a@ == b@),
    decreases a,
{
    same_name(&a.name, &b.name) && a.offset == b.offset && same_type(&a.ty, &b.ty)
}

fn same_class(a: &TypeClass, b: &TypeClass) -> (r: bool)
    ensures
        r == (a@ == b@),
    decreases a,
{
    match a {
        TypeClass::Primitive => match b {
            TypeClass::Primitive => true,
            _ => false,
        },
        TypeClass::Pointer { child: x } => match b {
            TypeClass::Pointer { child: y } => same_type(x, y),
            _ => false,
        },
        TypeClass::Array { member: x } => match b {
            TypeClass::Array { member: y } => same_type(x, y),
            _ => false,
        },
        TypeClass::Structure { members: x } => match b {
            TypeClass::Structure { members: y } => same_members(x, y),
            _ => false,
        },
        TypeClass::Enumeration { member_type: x } => match b {
            TypeClass::Enumeration { member_type: y } => same_type(x, y),
            _ => false,
        },
        TypeClass::Union { members: x } => match b {
            TypeClass::Union { members: y } => same_members(x, y),
            _ => false,
        },
        TypeClass::Function { out_members: xo, in_members: xi } => match b {
            TypeClass::Function { out_members: yo, in_members: yi } => same_members(xo, yo)
                && same_members(xi, yi),
            _ => false,
        },
        TypeClass::Referrer { guid: xg, name: xn } => match b {
            TypeClass::Referrer { guid: yg, name: yn } => *xg == *yg && same_name(xn, yn),
            _ => false,
        },
    }
}

fn same_type(a: &Type, b: &Type) -> (r: bool)
    ensures
        r == (a@ == b@),
    decreases a,
{
    a.guid == b.guid && same_name(&a.name, &b.name) && same_class(&a.class, &b.class)
}

impl Clone for Member {
    fn clone(&self) -> (r: Self)
        ensures
            r@ == self@,
    {
        clone_member(self)
    }
}

impl Clone for TypeClass {
    fn clone(&self) -> (r: Self)
        ensures
            r@ == self@,
    {
        clone_class(self)
    }
}

impl Clone for Type {
    fn clone(&self) -> (r: Self)
        ensures
            r@ == self@,
    {
        clone_type(self)
    }
}

impl PartialEq for Type {
    fn eq(&self, other: &Self) -> (r: bool) {
        same_type(self, other)
    }
}

impl PartialEqSpecImpl for Type {
    open spec fn obeys_eq_spec() -> bool {
        true
    }

    open spec fn eq_spec(&self, other: &Self) -> bool {
        self@ == other@
    }
}

impl Eq for Type {}

} // verus!
