use visuscript_core::action::Action;
use visuscript_core::action::ActionError;
use visuscript_core::action::Data;
use visuscript_core::ecs::Entity;
use visuscript_core::transform::Vec3i;
use visuscript_core::world::World;

fn zero() -> Vec3i {
    Vec3i { x: 0, y: 0, z: 0 }
}

fn create(world: &mut World, values: &[&str]) -> Entity {
    let action = Action::CreateArray {
        array: values.iter().map(|s| s.to_string()).collect(),
        translation: zero(),
        scale: 1,
    };
    match world.process(action) {
        Ok(Data::Entity(e)) => e,
        other => panic!("array creation answered {:?}", other),
    }
}

fn contents(world: &mut World, e: Entity) -> Vec<String> {
    match world.process(Action::GetArrayContents { entity: e }) {
        Ok(Data::Vector(v)) => v,
        other => panic!("contents query answered {:?}", other),
    }
}

#[test]
fn create_array_returns_entity_and_contents() {
    let mut world = World::new();
    let e = create(&mut world, &["5", "3", "0"]);
    assert_eq!(contents(&mut world, e), vec!["5", "3", "0"]);
}

#[test]
fn insert_shows_value_and_grows_length() {
    let mut world = World::new();
    let e = create(&mut world, &["5", "3", "0"]);
    let r = world.process(Action::InsertToArray {
        entity: e,
        index: 1,
        value: "9".to_string(),
        translation: zero(),
    });
    assert_eq!(r, Ok(Data::Nothing));
    let c = contents(&mut world, e);
    assert_eq!(c.len(), 4);
    assert_eq!(c, vec!["5", "9", "3", "0"]);
}

#[test]
fn insert_at_end_is_valid() {
    let mut world = World::new();
    let e = create(&mut world, &["a"]);
    let r = world.process(Action::InsertToArray {
        entity: e,
        index: 1,
        value: "b".to_string(),
        translation: zero(),
    });
    assert_eq!(r, Ok(Data::Nothing));
    assert_eq!(contents(&mut world, e), vec!["a", "b"]);
}

#[test]
fn pop_returns_value_and_shrinks_length() {
    let mut world = World::new();
    let e = create(&mut world, &["5", "3", "0"]);
    let r = world.process(Action::PopFromArray { entity: e, index: 1 });
    assert_eq!(r, Ok(Data::Value("3".to_string())));
    assert_eq!(contents(&mut world, e), vec!["5", "0"]);
}

#[test]
fn popped_cell_is_absent_from_the_store() {
    let mut world = World::new();
    let e = create(&mut world, &["5", "3"]);
    let elems = match world.process(Action::GetArrayContentEntities { entity: e }) {
        Ok(Data::Entities(v)) => v,
        other => panic!("entities query answered {:?}", other),
    };
    let victim = elems[0];
    let r = world.process(Action::PopFromArray { entity: e, index: 0 });
    assert_eq!(r, Ok(Data::Value("5".to_string())));
    // the popped entity is despawned at once
    assert_eq!(
        world.process(Action::GetValue { entity: victim }),
        Err(ActionError::EntityNotFound)
    );
}

#[test]
fn swap_twice_is_identity_on_contents() {
    let mut world = World::new();
    let e = create(&mut world, &["a", "b", "c", "d"]);
    let before = contents(&mut world, e);
    let swap = Action::SwapInArray { entity: e, a_index: 1, b_index: 3 };
    assert_eq!(world.process(swap.clone()), Ok(Data::Nothing));
    assert_eq!(contents(&mut world, e), vec!["a", "d", "c", "b"]);
    assert_eq!(world.process(swap), Ok(Data::Nothing));
    assert_eq!(contents(&mut world, e), before);
}

#[test]
fn set_replaces_slot_immediately() {
    let mut world = World::new();
    let e = create(&mut world, &["a", "b", "c"]);
    let before = match world.process(Action::GetArrayContentEntities { entity: e }) {
        Ok(Data::Entities(v)) => v,
        other => panic!("entities query answered {:?}", other),
    };
    let r = world.process(Action::SetInArray {
        entity: e,
        index: 1,
        value: "Z".to_string(),
        translation: zero(),
    });
    assert_eq!(r, Ok(Data::Nothing));
    assert_eq!(contents(&mut world, e), vec!["a", "Z", "c"]);
    let after = match world.process(Action::GetArrayContentEntities { entity: e }) {
        Ok(Data::Entities(v)) => v,
        other => panic!("entities query answered {:?}", other),
    };
    // the slot's logical identity is the new cell
    assert_ne!(before[1], after[1]);
    assert_eq!(before[0], after[0]);
    assert_eq!(before[2], after[2]);
    // reading the new cell gives the new value
    assert_eq!(
        world.process(Action::GetValue { entity: after[1] }),
        Ok(Data::Value("Z".to_string()))
    );
    // the old cell still exists until its retirement fires
    assert_eq!(
        world.process(Action::GetValue { entity: before[1] }),
        Ok(Data::Value("b".to_string()))
    );
}

#[test]
fn set_retires_old_cell_within_alignment_duration() {
    let mut world = World::new();
    let e = create(&mut world, &["a", "b"]);
    let before = match world.process(Action::GetArrayContentEntities { entity: e }) {
        Ok(Data::Entities(v)) => v,
        other => panic!("entities query answered {:?}", other),
    };
    let r = world.tick(
        0,
        Some(Action::SetInArray {
            entity: e,
            index: 0,
            value: "X".to_string(),
            translation: zero(),
        }),
    );
    assert_eq!(r, Some(Ok(Data::Nothing)));
    // one full alignment duration passes
    world.tick(visuscript_core::dispatch::DEFAULT_ALIGNMENT_DURATION, None);
    // the old cell has been despawned by timer or by touch
    assert_eq!(
        world.process(Action::GetValue { entity: before[0] }),
        Err(ActionError::EntityNotFound)
    );
    // the logical contents are unaffected by the retirement
    assert_eq!(contents(&mut world, e), vec!["X", "b"]);
}

#[test]
fn replayed_scenario_matches_sequential_application() {
    let mut world = World::new();
    let e = create(&mut world, &["5", "3", "0"]);
    for (index, value) in [(0usize, "9"), (1, "1"), (2, "5"), (1, "4")] {
        let r = world.process(Action::InsertToArray {
            entity: e,
            index,
            value: value.to_string(),
            translation: zero(),
        });
        assert_eq!(r, Ok(Data::Nothing));
    }
    let r = world.process(Action::SwapInArray { entity: e, a_index: 0, b_index: 2 });
    assert_eq!(r, Ok(Data::Nothing));
    let c = contents(&mut world, e);
    assert_eq!(c.len(), 7);
    assert_eq!(c, vec!["1", "4", "9", "5", "5", "3", "0"]);
}

#[test]
fn out_of_range_indices_report_and_change_nothing() {
    let mut world = World::new();
    let e = create(&mut world, &["5", "3", "0"]);
    let before = contents(&mut world, e);

    let r = world.process(Action::PopFromArray { entity: e, index: 3 });
    assert_eq!(r, Err(ActionError::IndexOutOfRange));
    assert_eq!(contents(&mut world, e), before);

    let r = world.process(Action::InsertToArray {
        entity: e,
        index: 4,
        value: "x".to_string(),
        translation: zero(),
    });
    assert_eq!(r, Err(ActionError::IndexOutOfRange));
    assert_eq!(contents(&mut world, e), before);

    let r = world.process(Action::SwapInArray { entity: e, a_index: 0, b_index: 3 });
    assert_eq!(r, Err(ActionError::IndexOutOfRange));
    assert_eq!(contents(&mut world, e), before);

    let r = world.process(Action::SetInArray {
        entity: e,
        index: 3,
        value: "x".to_string(),
        translation: zero(),
    });
    assert_eq!(r, Err(ActionError::IndexOutOfRange));
    assert_eq!(contents(&mut world, e), before);
}

#[test]
fn unknown_handles_report_entity_not_found() {
    let mut world = World::new();
    let ghost_handle = Entity(99);
    assert_eq!(
        world.process(Action::GetValue { entity: ghost_handle }),
        Err(ActionError::EntityNotFound)
    );
    assert_eq!(
        world.process(Action::GetArrayContents { entity: ghost_handle }),
        Err(ActionError::EntityNotFound)
    );
    assert_eq!(
        world.process(Action::PopFromArray { entity: ghost_handle, index: 0 }),
        Err(ActionError::EntityNotFound)
    );
    assert_eq!(
        world.process(Action::Destroy { entity: ghost_handle }),
        Err(ActionError::EntityNotFound)
    );
    assert_eq!(
        world.process(Action::GetPosition { entity: ghost_handle, reference: None }),
        Err(ActionError::EntityNotFound)
    );
}

#[test]
fn zero_columns_is_invalid_argument() {
    let mut world = World::new();
    let r = world.create_array(
        vec!["a".to_string()],
        0,
        visuscript_core::transform::Transform::identity(),
    );
    assert_eq!(r, Err(ActionError::InvalidArgument));
}

#[test]
fn destroy_removes_array_and_cells() {
    let mut world = World::new();
    let e = create(&mut world, &["a", "b"]);
    let elems = match world.process(Action::GetArrayContentEntities { entity: e }) {
        Ok(Data::Entities(v)) => v,
        other => panic!("entities query answered {:?}", other),
    };
    assert_eq!(world.process(Action::Destroy { entity: e }), Ok(Data::Nothing));
    assert_eq!(
        world.process(Action::GetArrayContents { entity: e }),
        Err(ActionError::EntityNotFound)
    );
    for cell in elems {
        assert_eq!(
            world.process(Action::GetValue { entity: cell }),
            Err(ActionError::EntityNotFound)
        );
    }
}

#[test]
fn set_parent_composes_world_positions() {
    let mut world = World::new();
    let parent = create(&mut world, &[]);
    let child = create(&mut world, &[]);
    let r = world.process(Action::SetTarget {
        entity: parent,
        translation: Vec3i { x: 10, y: 20, z: 0 },
        scale: 1,
        duration: 0,
    });
    assert_eq!(r, Ok(Data::Nothing));
    // a zero-duration animation snaps on the next tick
    world.tick(1, None);
    assert_eq!(world.process(Action::SetParent { parent, child }), Ok(Data::Nothing));
    assert_eq!(
        world.process(Action::GetPosition { entity: child, reference: None }),
        Ok(Data::Position(Vec3i { x: 10, y: 20, z: 0 }))
    );
    assert_eq!(
        world.process(Action::GetPosition { entity: child, reference: Some(parent) }),
        Ok(Data::Position(Vec3i { x: 0, y: 0, z: 0 }))
    );
}

#[test]
fn set_target_reaches_goal_exactly_after_its_duration() {
    let mut world = World::new();
    let e = create(&mut world, &[]);
    let goal = Vec3i { x: 100, y: 200, z: 3 };
    let r = world.tick(
        500,
        Some(Action::SetTarget { entity: e, translation: goal, scale: 1, duration: 1000 }),
    );
    assert_eq!(r, Some(Ok(Data::Nothing)));
    // halfway there; one more half duration completes the animation
    world.tick(500, None);
    assert_eq!(
        world.process(Action::GetPosition { entity: e, reference: None }),
        Ok(Data::Position(goal))
    );
}

#[test]
fn grid_layout_places_cells_row_major() {
    let mut world = World::new();
    // a 3-column grid of 64 by 64 cells
    let values: Vec<String> = ["0", "1", "2", "3", "4", "5"]
        .iter()
        .map(|s| s.to_string())
        .collect();
    let e = world
        .create_array(values, 3, visuscript_core::transform::Transform::identity())
        .expect("the shape is valid");
    // the first tick installs the layout goals; the second completes them
    world.tick(visuscript_core::dispatch::DEFAULT_ALIGNMENT_DURATION, None);
    world.tick(visuscript_core::dispatch::DEFAULT_ALIGNMENT_DURATION, None);
    let coords = match world.process(Action::GetArrayContentCoordinates { entity: e }) {
        Ok(Data::Coordinates(v)) => v,
        other => panic!("coordinates query answered {:?}", other),
    };
    let expected = [
        Vec3i { x: 0, y: 0, z: 0 },
        Vec3i { x: 64, y: 0, z: 0 },
        Vec3i { x: 128, y: 0, z: 0 },
        Vec3i { x: 0, y: -64, z: 0 },
        Vec3i { x: 64, y: -64, z: 0 },
        Vec3i { x: 128, y: -64, z: 0 },
    ];
    assert_eq!(coords, expected.to_vec());
}

#[test]
fn relative_position_overflow_is_invalid_argument() {
    let mut world = World::new();
    let a = create(&mut world, &[]);
    let b = create(&mut world, &[]);
    world.tick(
        1,
        Some(Action::SetTarget {
            entity: a,
            translation: Vec3i { x: i64::MAX, y: 0, z: 0 },
            scale: 1,
            duration: 0,
        }),
    );
    world.tick(
        1,
        Some(Action::SetTarget {
            entity: b,
            translation: Vec3i { x: -1, y: 0, z: 0 },
            scale: 1,
            duration: 0,
        }),
    );
    world.tick(1, None);
    assert_eq!(
        world.process(Action::GetPosition { entity: a, reference: Some(b) }),
        Err(ActionError::InvalidArgument)
    );
}
