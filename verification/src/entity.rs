//! What the matcher reads of an entity: its id, its display name and the
//! types of the components it carries.

use bevy::ecs::entity::Entity;
use std::any::TypeId;
use vstd::prelude::*;

verus! {

/// Bevy's `Entity`, the id of an entity. Nothing is stated about what is
/// inside one: the library hands entities on and never looks into them.
#[verifier::external_type_specification]
#[verifier::external_body]
pub struct ExEntity(Entity);

/// The standard library's `TypeId`, which stands for the type of a
/// component. Nothing is stated about what is inside one.
#[verifier::external_type_specification]
#[verifier::external_body]
pub struct ExTypeId(TypeId);

/// `TypeId`'s `==`. Trusted: two type ids compare equal exactly when they
/// are the same id.
#[verifier::external_body]
fn same_type(a: &TypeId, b: &TypeId) -> (same: bool)
    ensures
        same == (*a == *b),
{
    a == b
}

/// Whether `wanted` is among `components`.
pub fn has_component(components: &Vec<TypeId>, wanted: &TypeId) -> (found: bool)
    ensures
        found == components@.contains(*wanted),
{
    let mut i: usize = 0;
    while i < components.len()
        invariant
            i <= components.len(),
            forall|j: int| 0 <= j < i ==> components@[j] != *wanted,
        decreases components.len() - i,
    {
        if same_type(&components[i], wanted) {
            return true;
        }
        i += 1;
    }
    false
}

/// A copy of `list`.
pub(crate) fn copy_types(list: &Vec<TypeId>) -> (copy: Vec<TypeId>)
    ensures
        copy@ == list@,
{
    let mut copy: Vec<TypeId> = Vec::new();
    let mut i: usize = 0;
    while i < list.len()
        invariant
            i <= list.len(),
            copy@ == list@.take(i as int),
        decreases list.len() - i,
    {
        copy.push(list[i]);
        i += 1;
    }
    copy
}

/// One entity as it stood when a scene instance was looked at.
#[derive(Debug)]
pub struct EntitySnapshot {
    /// The entity.
    pub entity: Entity,
    /// Its display name, if it has one.
    pub name: Option<String>,
    /// The types of its components.
    pub components: Vec<TypeId>,
}

/// An [`EntitySnapshot`] over sequences.
pub struct EntityModel {
    pub entity: Entity,
    pub name: Option<Seq<char>>,
    pub components: Seq<TypeId>,
}

impl View for EntitySnapshot {
    type V = EntityModel;

    open spec fn view(&self) -> EntityModel {
        EntityModel {
            entity: self.entity,
            name: match self.name {
                Some(text) => Some(text@),
                None => None,
            },
            components: self.components@,
        }
    }
}

/// The views of a list of snapshots, in order.
pub open spec fn models_of(list: Seq<EntitySnapshot>) -> Seq<EntityModel> {
    Seq::new(list.len(), |i: int| list[i]@)
}

} // verus!
