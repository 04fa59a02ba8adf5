//! The destination type universe: the types that have been registered, each under its
//! identifier.

use crate::guid::TypeGUID;
use crate::types::{Type, TypeModel};
use vstd::prelude::*;

verus! {

/// One registered type.
#[derive(Debug)]
pub struct TypeDefinition {
    pub name: String,
    pub id: TypeGUID,
    pub ty: Type,
}

/// What a `TypeDefinition` stands for.
pub struct DefinitionModel {
    pub name: Seq<char>,
    pub id: TypeGUID,
    pub ty: TypeModel,
}

impl View for TypeDefinition {
    type V = DefinitionModel;

    open spec fn view(&self) -> DefinitionModel {
        DefinitionModel { name: self.name@, id: self.id, ty: self.ty@ }
    }
}

/// What a run of definitions stands for.
pub open spec fn definitions_model(definitions: Seq<TypeDefinition>) -> Seq<DefinitionModel> {
    definitions.map_values(|d: TypeDefinition| d@)
}

/// A type is registered under `id`.
pub open spec fn has_id(definitions: Seq<DefinitionModel>, id: TypeGUID) -> bool {
    exists|i: int| 0 <= i < definitions.len() && (#[trigger] definitions[i]).id == id
}

/// A type is registered under `name`.
pub open spec fn has_name(definitions: Seq<DefinitionModel>, name: Seq<char>) -> bool {
    exists|i: int| 0 <= i < definitions.len() && (#[trigger] definitions[i]).name == name
}

/// No identifier is registered twice.
pub open spec fn distinct_ids(definitions: Seq<DefinitionModel>) -> bool {
    forall|i: int, j: int|
        0 <= i < j < definitions.len() ==> (#[trigger] definitions[i]).id != (
        #[trigger] definitions[j]).id
}

/// Registration: a definition is added unless its identifier is registered already.
pub open spec fn define(definitions: Seq<DefinitionModel>, definition: DefinitionModel) -> Seq<
    DefinitionModel,
> {
    if has_id(definitions, definition.id) {
        definitions
    } else {
        definitions.push(definition)
    }
}

/// The types registered so far, in the order of their registration.
#[derive(Debug)]
pub struct TypeUniverse {
    definitions: Vec<TypeDefinition>,
}

impl View for TypeUniverse {
    type V = Seq<DefinitionModel>;

    closed spec fn view(&self) -> Seq<DefinitionModel> {
        definitions_model(self.definitions@)
    }
}

impl TypeUniverse {
    /// What holds of every universe: no identifier is registered twice.
    #[verifier::type_invariant]
    spec fn no_identifier_twice(self) -> bool {
        distinct_ids(self@)
    }

    /// A universe without any type.
    pub fn new() -> (universe: Self)
        ensures
            universe@ == Seq::<DefinitionModel>::empty(),
    {
        TypeUniverse { definitions: Vec::new() }
    }

    /// The number of registered types.
    pub fn len(&self) -> (n: usize)
        ensures
            n == self@.len(),
            distinct_ids(self@),
    {
        proof {
            use_type_invariant(self);
        }
        self.definitions.len()
    }

    /// The registered types, in the order of their registration.
    pub fn definitions(&self) -> (all: &Vec<TypeDefinition>)
        ensures
            definitions_model(all@) == self@,
    {
        &self.definitions
    }

    /// The type registered under `id`, if there is one.
    pub fn get_type_by_id(&self, id: TypeGUID) -> (found: Option<&TypeDefinition>)
        ensures
            found is Some == has_id(self@, id),
            found matches Some(d) ==> d@.id == id && self@.contains(d@),
    {
        let mut i: usize = 0;
        while i < self.definitions.len()
            invariant
                i <= self.definitions.len(),
                forall|j: int| 0 <= j < i ==> (#[trigger] self@[j]).id != id,
            decreases self.definitions.len() - i,
        {
            if self.definitions[i].id == id {
                assert(self@[i as int] == self.definitions[i as int]@);
                return Some(&self.definitions[i]);
            }
            i += 1;
        }
        None
    }

    /// The type that was registered first under `name`, if there is one.
    pub fn get_type_by_name(&self, name: &String) -> (found: Option<&TypeDefinition>)
        ensures
            found is Some == has_name(self@, name@),
            found matches Some(d) ==> exists|i: int|
                0 <= i < self@.len() && self@[i] == d@ && d@.name == name@ && forall|j: int|
                    0 <= j < i ==> (#[trigger] self@[j]).name != name@,
    {
        let mut i: usize = 0;
        while i < self.definitions.len()
            invariant
                i <= self.definitions.len(),
                forall|j: int| 0 <= j < i ==> (#[trigger] self@[j]).name != name@,
            decreases self.definitions.len() - i,
        {
            if self.definitions[i].name == *name {
                assert(self@[i as int] == self.definitions[i as int]@);
                return Some(&self.definitions[i]);
            }
            i += 1;
        }
        None
    }

    /// Registers `ty` under `id` and `name`, unless a type is registered under `id` already.
    /// Says whether the type was registered by this call.
    pub fn define_with_id(&mut self, name: String, id: TypeGUID, ty: Type) -> (fresh: bool)
        ensures
            final(self)@ == define(old(self)@, (DefinitionModel { name: name@, id, ty: ty@ })),
            fresh == !has_id(old(self)@, id),
            distinct_ids(final(self)@),
    {
        proof {
            use_type_invariant(&*self);
        }
        if self.get_type_by_id(id).is_some() {
            return false;
        }
        let ghost before = self@;
        // The definitions are taken out while one is added, so that the universe holds
        // no identifier twice at any moment.
        let mut definitions: Vec<TypeDefinition> = Vec::new();
        std::mem::swap(&mut definitions, &mut self.definitions);
        definitions.push(TypeDefinition { name, id, ty });
        assert(definitions_model(definitions@) =~= before.push(
            DefinitionModel { name: name@, id, ty: ty@ },
        ));
        std::mem::swap(&mut definitions, &mut self.definitions);
        true
    }
}

} // verus!
