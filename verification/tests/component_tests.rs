use visuscript_core::array::Array;
use visuscript_core::action::ActionError;
use visuscript_core::ecs::Arena;
use visuscript_core::ecs::Entity;
use visuscript_core::interp::TargetTransform;
use visuscript_core::interp::step_target_transform;
use visuscript_core::layout::grid_translation;
use visuscript_core::rgb::Rgb;
use visuscript_core::svg_string::SvgError;
use visuscript_core::svg_string::SvgString;
use visuscript_core::transform::Transform;
use visuscript_core::transform::Vec3i;
use visuscript_core::transform::check_within_distance;
use visuscript_core::util::DespawnTimer;

#[test]
fn arena_add_borrow_remove() {
    let mut arena: Arena<u32> = Arena::new();
    let a = Entity(0);
    let b = Entity(5);
    assert!(arena.borrow_for(a).is_none());
    arena.add_for(a, 11);
    arena.add_for(b, 22);
    assert_eq!(arena.borrow_for(a), Some(&11));
    assert_eq!(arena.borrow_for(b), Some(&22));
    assert!(arena.contains_for(b));
    if let Some(v) = arena.mut_borrow_for(a) {
        *v = 33;
    }
    assert_eq!(arena.borrow_for(a), Some(&33));
    assert!(arena.remove_for(a).is_ok());
    assert!(arena.borrow_for(a).is_none());
    assert!(arena.remove_for(a).is_err());
    // the other entry survives the swap-remove
    assert_eq!(arena.borrow_for(b), Some(&22));
    let ids = arena.entities();
    assert_eq!(ids, vec![b]);
}

#[test]
fn grid_layout_positions_for_three_columns() {
    // cells 0..6 in a 3-column grid of 64 by 64 cells
    let expected = [(0, 0), (64, 0), (128, 0), (0, -64), (64, -64), (128, -64)];
    for (index, (x, y)) in expected.iter().enumerate() {
        assert_eq!(grid_translation(index, 3, 64, 64), (*x, *y));
    }
}

#[test]
fn interpolation_blends_then_snaps_exactly() {
    let t = Transform { translation: Vec3i { x: 0, y: 0, z: 7 }, scale: 1 };
    let tt = TargetTransform {
        goal_translation: Vec3i { x: 100, y: -100, z: 7 },
        goal_scale: 2,
        duration: 10,
        elapsed: 0,
    };
    let (t1, tt1) = step_target_transform(t, tt, 5);
    // halfway: the translation re-blends toward the goal
    assert_eq!(t1.translation, Vec3i { x: 50, y: -50, z: 7 });
    assert_eq!(t1.scale, 1);
    let tt1 = tt1.expect("animation still running");
    assert_eq!(tt1.elapsed, 5);
    let (t2, tt2) = step_target_transform(t1, tt1, 5);
    // done: the transform equals the goal exactly and the component is gone
    assert_eq!(t2.translation, Vec3i { x: 100, y: -100, z: 7 });
    assert_eq!(t2.scale, 2);
    assert!(tt2.is_none());
}

#[test]
fn interpolation_velocity_decays_under_re_blend() {
    // the iterative re-blend is not a fixed-endpoint interpolation: two
    // half-duration steps do not land on the goal
    let t = Transform { translation: Vec3i { x: 0, y: 0, z: 0 }, scale: 1 };
    let tt = TargetTransform {
        goal_translation: Vec3i { x: 100, y: 0, z: 0 },
        goal_scale: 1,
        duration: 12,
        elapsed: 0,
    };
    let (t1, tt1) = step_target_transform(t, tt, 4);
    assert_eq!(t1.translation.x, 33);
    let (t2, _) = step_target_transform(t1, tt1.unwrap(), 4);
    // progress 8/12 from the already-blended position, not from the origin
    assert_eq!(t2.translation.x, 33 + (100 - 33) * 8 / 12);
}

#[test]
fn despawn_timer_counts_down_and_stops_at_zero() {
    let mut timer = DespawnTimer::new(10);
    assert!(!timer.done());
    timer.tick(4);
    assert!(!timer.done());
    timer.tick(4);
    assert!(!timer.done());
    timer.tick(4);
    assert!(timer.done());
    timer.tick(4);
    assert!(timer.done());
}

#[test]
fn within_distance_is_exact_on_squares() {
    let a = Vec3i { x: 0, y: 0, z: 0 };
    let b = Vec3i { x: 3, y: 4, z: 0 };
    assert!(check_within_distance(a, b, 5));
    assert!(!check_within_distance(a, b, 4));
    let c = Vec3i { x: 1, y: 1, z: 1 };
    assert!(!check_within_distance(a, c, 1));
    assert!(check_within_distance(a, c, 2));
}

#[test]
fn array_new_validates_shape() {
    assert!(Array::new(Vec::new(), 1, 64, 64, 1000).is_ok());
    assert!(matches!(
        Array::new(Vec::new(), 0, 64, 64, 1000),
        Err(ActionError::InvalidArgument)
    ));
    assert!(matches!(
        Array::new(Vec::new(), 1, -1, 64, 1000),
        Err(ActionError::InvalidArgument)
    ));
}

#[test]
fn array_ops_on_element_handles() {
    let mut arr = Array::new(vec![Entity(1), Entity(2), Entity(3)], 3, 64, 64, 1000).unwrap();
    assert!(arr.insert(1, Entity(9)).is_ok());
    assert_eq!(arr.elements, vec![Entity(1), Entity(9), Entity(2), Entity(3)]);
    assert_eq!(arr.pop(2), Ok(Entity(2)));
    assert_eq!(arr.elements, vec![Entity(1), Entity(9), Entity(3)]);
    assert_eq!(arr.set(0, Entity(7)), Ok(Entity(1)));
    assert_eq!(arr.elements, vec![Entity(7), Entity(9), Entity(3)]);
    assert!(arr.swap(0, 2).is_ok());
    assert_eq!(arr.elements, vec![Entity(3), Entity(9), Entity(7)]);
    assert_eq!(arr.pop(5), Err(ActionError::IndexOutOfRange));
    assert_eq!(arr.swap(0, 3), Err(ActionError::IndexOutOfRange));
    assert_eq!(arr.insert(9, Entity(0)), Err(ActionError::IndexOutOfRange));
}

#[test]
fn rgb_arithmetic_saturates() {
    let a = Rgb::new(200, 100, 0);
    let b = Rgb::new(100, 50, 5);
    assert_eq!(a.add(b), Rgb::new(255, 150, 5));
    assert_eq!(a.sub(b), Rgb::new(100, 50, 0));
    assert_eq!(Rgb::new(16, 2, 255).mul(Rgb::new(16, 3, 2)), Rgb::new(255, 6, 255));
    assert_eq!(Rgb::new(100, 90, 8).div(Rgb::new(3, 2, 2)), Some(Rgb::new(33, 45, 4)));
    assert_eq!(Rgb::new(1, 2, 3).div(Rgb::new(1, 0, 1)), None);
}

#[test]
fn svg_template_substitutes_and_escapes() {
    let mut svg = SvgString::new("<text x=\"{x}\">\\{literal}</text>".to_string());
    svg.set_parameters(vec![("x".to_string(), "42".to_string())]);
    assert_eq!(svg.render(), Ok("<text x=\"42\">{literal}</text>".to_string()));
}

#[test]
fn svg_template_reports_each_failure() {
    let trailing = SvgString::new("oops\\".to_string());
    assert_eq!(trailing.render(), Err(SvgError::UnterminatedEscape));
    let unclosed = SvgString::new("{name".to_string());
    assert_eq!(unclosed.render(), Err(SvgError::UnclosedBrace));
    let missing = SvgString::new("{name}".to_string());
    assert_eq!(missing.render(), Err(SvgError::MissingParameter));
}

#[test]
fn svg_template_without_parameters_renders_itself() {
    let svg = SvgString::new("plain text".to_string());
    assert_eq!(svg.render(), Ok("plain text".to_string()));
}

#[test]
fn svg_first_matching_argument_wins() {
    let mut svg = SvgString::new("{x}".to_string());
    svg.set_parameters(vec![
        ("x".to_string(), "first".to_string()),
        ("x".to_string(), "second".to_string()),
    ]);
    assert_eq!(svg.render(), Ok("first".to_string()));
}
