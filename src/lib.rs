//! An entity-component-system core: entities, component signatures, the
//! registry that stores components, the queries over it, the bookkeeping
//! that matches entities to systems, and the event bus.
mod component;
mod component_signature;
mod ecs;
mod entity;
mod entity_manager;
pub mod events;
pub mod gameplay;
mod group_manager;
mod pair_list;
mod query;
mod resources;
mod seq_facts;
pub mod systems;
mod tag_manager;
pub mod tilemap;

pub use component::{
    get_next_component_type_id, Component, ComponentTypeError, ComponentTypeId,
    ComponentTypeRegistry,
};
pub use component_signature::{ComponentSignature, MAX_COMPONENTS};
pub use ecs::EntityComponentSystem;
pub use entity::{get_next_entity_id, Entity, EntityId};
pub use entity_manager::EntityManager;
pub use group_manager::GroupManager;
pub use query::{Query, QueryError};
pub use resources::{ResourceTypeId, Resources};
pub use tag_manager::TagManager;
