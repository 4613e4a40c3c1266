//! The command protocol: actions, responses, and the errors an action can
//! report.

use vstd::prelude::*;
use crate::ecs::Entity;
use crate::transform::Vec3i;

verus! {

/// One externally submitted command. Exactly one action is drained and fully
/// applied per simulation tick.
#[derive(Debug, Clone)]
pub enum Action {
    /// Despawn the entity and all of its descendants.
    Destroy { entity: Entity },
    /// Reparent `child` under `parent`.
    SetParent { parent: Entity, child: Entity },
    /// Attach a goal-transform animation to the entity.
    SetTarget { entity: Entity, translation: Vec3i, scale: i64, duration: u32 },
    /// The entity's world position, optionally relative to a reference.
    GetPosition { entity: Entity, reference: Option<Entity> },
    /// The text value of a cell.
    GetValue { entity: Entity },
    /// Create an array of cells holding the given text values.
    CreateArray { array: Vec<String>, translation: Vec3i, scale: i64 },
    /// Insert a new cell at `index`.
    InsertToArray { entity: Entity, index: usize, value: String, translation: Vec3i },
    /// Swap the cells at the two indices.
    SwapInArray { entity: Entity, a_index: usize, b_index: usize },
    /// Remove and despawn the cell at `index`; respond with its value.
    PopFromArray { entity: Entity, index: usize },
    /// Replace the cell at `index` with a new cell holding `value`; the old
    /// cell flies out and is retired by timer or by touch.
    SetInArray { entity: Entity, index: usize, value: String, translation: Vec3i },
    /// The ordered text values of all cells.
    GetArrayContents { entity: Entity },
    /// The ordered entity handles of all cells.
    GetArrayContentEntities { entity: Entity },
    /// The ordered world translations of all cells.
    GetArrayContentCoordinates { entity: Entity },
}

/// The payload of a successful response.
#[derive(Debug, Clone, PartialEq, Eq)]
pub enum Data {
    /// No payload.
    Nothing,
    /// A single text value.
    Value(String),
    /// A single entity handle.
    Entity(Entity),
    /// Ordered text values.
    Vector(Vec<String>),
    /// Ordered entity handles.
    Entities(Vec<Entity>),
    /// Ordered translations.
    Coordinates(Vec<Vec3i>),
    /// A single translation.
    Position(Vec3i),
}

/// Why an action was rejected. A rejected action mutates nothing.
#[derive(Clone, Copy, PartialEq, Eq, Structural, Debug)]
pub enum ActionError {
    /// An argument is outside the accepted range, or a machine capacity was
    /// reached.
    InvalidArgument,
    /// An index is outside the current bounds of the array.
    IndexOutOfRange,
    /// The action references a handle absent from the relevant store.
    EntityNotFound,
    /// A malformed external request; reported at the transport boundary and
    /// never produced by the dispatcher.
    ProtocolError,
    /// The transport counterpart has shut down; fatal to the affected caller
    /// only.
    ChannelClosed,
}

} // verus!
