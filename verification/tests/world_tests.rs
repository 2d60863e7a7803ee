use sandbox2d::geom::Color;
use sandbox2d::geom::Rect;
use sandbox2d::geom::Vec2;
use sandbox2d::world::Button;
use sandbox2d::world::Entity;
use sandbox2d::world::Event;
use sandbox2d::world::Key;
use sandbox2d::world::World;
use sandbox2d::DEFAULT_SPAWN;
use sandbox2d::MOMENTUM_CAP;
use sandbox2d::SCALE;

fn entity_at(min: Vec2, size: Vec2, momentum: Vec2, is_controlled: bool) -> Entity {
    Entity {
        bounds: Rect {
            min,
            max: Vec2 { x: min.x + size.x, y: min.y + size.y },
        },
        color: Color { r: 0, g: 255, b: 0, a: 255 },
        momentum,
        is_controlled,
    }
}

#[test]
fn spawn_appends_one_entity() {
    let mut w = World::new();
    let p = Vec2 { x: 7 * SCALE, y: 9 * SCALE };
    w.handle_click(p, Button::Primary);
    assert_eq!(w.entities.len(), 1);
    let e = &w.entities[0];
    assert_eq!(e.bounds.min, p);
    assert_eq!(e.bounds.max, Vec2 { x: p.x + DEFAULT_SPAWN, y: p.y + DEFAULT_SPAWN });
    assert_eq!(e.momentum, Vec2 { x: 0, y: 0 });
    assert!(!e.is_controlled);
    assert_eq!(w.controlled_index, None);
    w.handle_click(p, Button::Primary);
    assert_eq!(w.entities.len(), 2);
}

#[test]
fn control_exclusivity_over_click_sequences() {
    let mut w = World::new();
    w.handle_click(Vec2 { x: 0, y: 0 }, Button::Primary);
    w.handle_click(Vec2 { x: 100 * SCALE, y: 0 }, Button::Primary);
    w.handle_click(Vec2 { x: 0, y: 100 * SCALE }, Button::Primary);
    let clicks = [
        Vec2 { x: 10, y: 10 },
        Vec2 { x: 100 * SCALE + 10, y: 10 },
        Vec2 { x: 100 * SCALE + 10, y: 10 },
        Vec2 { x: 5, y: 100 * SCALE + 5 },
        Vec2 { x: -50, y: -50 },
        Vec2 { x: 10, y: 10 },
    ];
    for p in clicks {
        w.handle_click(p, Button::Secondary);
        assert!(w.is_wf());
        let flagged: Vec<usize> = (0..w.entities.len())
            .filter(|&i| w.entities[i].is_controlled)
            .collect();
        match w.controlled_index {
            Some(c) => assert_eq!(flagged, vec![c]),
            None => assert!(flagged.is_empty()),
        }
    }
}

#[test]
fn toggle_unsets_and_moves_control() {
    let mut w = World::new();
    w.handle_click(Vec2 { x: 0, y: 0 }, Button::Primary);
    w.handle_click(Vec2 { x: 200 * SCALE, y: 0 }, Button::Primary);
    let in_first = Vec2 { x: 10, y: 10 };
    let in_second = Vec2 { x: 200 * SCALE + 10, y: 10 };
    w.handle_click(in_first, Button::Secondary);
    assert_eq!(w.controlled_index, Some(0));
    assert!(w.entities[0].is_controlled);
    w.handle_click(in_second, Button::Secondary);
    assert_eq!(w.controlled_index, Some(1));
    assert!(!w.entities[0].is_controlled);
    assert!(w.entities[1].is_controlled);
    w.handle_click(in_second, Button::Secondary);
    assert_eq!(w.controlled_index, None);
    assert!(!w.entities[1].is_controlled);
}

#[test]
fn secondary_click_picks_first_created_among_overlaps() {
    let mut w = World::new();
    w.handle_click(Vec2 { x: 0, y: 0 }, Button::Primary);
    w.handle_click(Vec2 { x: 10, y: 10 }, Button::Primary);
    w.handle_click(Vec2 { x: 20, y: 20 }, Button::Secondary);
    assert_eq!(w.controlled_index, Some(0));
}

#[test]
fn secondary_click_misses_all() {
    let mut w = World::new();
    w.handle_click(Vec2 { x: 0, y: 0 }, Button::Primary);
    w.handle_click(Vec2 { x: DEFAULT_SPAWN + 1, y: 0 }, Button::Secondary);
    assert_eq!(w.controlled_index, None);
    assert!(!w.entities[0].is_controlled);
}

#[test]
fn impulse_clamps_to_exactly_the_cap() {
    let mut w = World::new();
    w.handle_click(Vec2 { x: 0, y: 0 }, Button::Primary);
    w.handle_click(Vec2 { x: 10, y: 10 }, Button::Secondary);
    w.handle_key(Key::Right, true);
    // 5 * 50 units is far beyond the cap of 10 units.
    assert_eq!(w.entities[0].momentum, Vec2 { x: MOMENTUM_CAP, y: 0 });
    let mut w2 = World::new();
    w2.handle_click(Vec2 { x: 0, y: 0 }, Button::Primary);
    w2.handle_click(Vec2 { x: 10, y: 10 }, Button::Secondary);
    w2.handle_key(Key::Up, true);
    assert_eq!(w2.entities[0].momentum, Vec2 { x: 0, y: -MOMENTUM_CAP });
}

#[test]
fn impulse_below_the_cap_is_kept() {
    let mut w = World::new();
    w.spawn_size = Vec2 { x: SCALE, y: SCALE };
    w.handle_click(Vec2 { x: 0, y: 0 }, Button::Primary);
    w.handle_click(Vec2 { x: 10, y: 10 }, Button::Secondary);
    w.handle_key(Key::Down, true);
    // 5 * 1 unit = 5 units, within the cap of 10.
    assert_eq!(w.entities[0].momentum, Vec2 { x: 0, y: 5 * SCALE });
}

#[test]
fn diagonal_momentum_is_rescaled_to_the_cap() {
    let mut w = World::new();
    w.entities.push(entity_at(
        Vec2 { x: 100 * SCALE, y: 100 * SCALE },
        Vec2 { x: DEFAULT_SPAWN, y: DEFAULT_SPAWN },
        Vec2 { x: 0, y: 0 },
        true,
    ));
    w.controlled_index = Some(0);
    assert!(w.is_wf());
    w.apply_impulse(Vec2 { x: 20 * SCALE, y: 20 * SCALE });
    // The raw impulse is (100, 100) units; its length 141421 (fixed
    // point) rescales both components to 10^9 / 141421 = 7071.
    assert_eq!(w.entities[0].momentum, Vec2 { x: 7071, y: 7071 });
}

#[test]
fn key_release_and_unknown_keys_do_nothing() {
    let mut w = World::new();
    w.handle_click(Vec2 { x: 0, y: 0 }, Button::Primary);
    w.handle_click(Vec2 { x: 10, y: 10 }, Button::Secondary);
    w.handle_key(Key::Right, false);
    assert_eq!(w.entities[0].momentum, Vec2 { x: 0, y: 0 });
    w.handle_key(Key::Other, true);
    assert_eq!(w.entities[0].momentum, Vec2 { x: 0, y: 0 });
}

#[test]
fn key_without_controlled_entity_does_nothing() {
    let mut w = World::new();
    w.handle_click(Vec2 { x: 0, y: 0 }, Button::Primary);
    w.handle_key(Key::Right, true);
    assert_eq!(w.entities[0].momentum, Vec2 { x: 0, y: 0 });
    assert_eq!(w.controlled_index, None);
}

#[test]
fn damping_shrinks_momentum_each_step() {
    let mut w = World::new();
    w.entities.push(entity_at(
        Vec2 { x: 100 * SCALE, y: 100 * SCALE },
        Vec2 { x: DEFAULT_SPAWN, y: DEFAULT_SPAWN },
        Vec2 { x: MOMENTUM_CAP, y: 0 },
        false,
    ));
    let mut expected = vec![9_000i64, 8_100, 7_290, 6_561, 5_904];
    for want in expected.drain(..) {
        w.step_physics();
        assert_eq!(w.entities[0].momentum.x, want);
        assert_eq!(w.entities[0].momentum.y, 0);
    }
}

#[test]
fn entity_at_rest_stays_put() {
    let mut w = World::new();
    w.entities.push(entity_at(
        Vec2 { x: 100 * SCALE, y: 100 * SCALE },
        Vec2 { x: DEFAULT_SPAWN, y: DEFAULT_SPAWN },
        Vec2 { x: 0, y: 0 },
        false,
    ));
    let before = w.entities[0];
    w.step_physics();
    assert_eq!(w.entities[0], before);
}

#[test]
fn bounce_negates_x_momentum_at_right_edge() {
    let mut w = World::new();
    w.entities.push(entity_at(
        Vec2 { x: 749 * SCALE, y: 100 * SCALE },
        Vec2 { x: DEFAULT_SPAWN, y: DEFAULT_SPAWN },
        Vec2 { x: 2 * SCALE, y: 0 },
        false,
    ));
    w.step_physics();
    // Translated bounds reach 801 units, beyond 800: x momentum flips
    // after damping, and the position is left outside for this frame.
    assert_eq!(w.entities[0].bounds.max.x, 801 * SCALE);
    assert_eq!(w.entities[0].momentum.x, -(2 * SCALE * 9 / 10));
}

#[test]
fn bounce_negates_y_momentum_at_bottom_edge() {
    let mut w = World::new();
    w.entities.push(entity_at(
        Vec2 { x: 100 * SCALE, y: 549 * SCALE },
        Vec2 { x: DEFAULT_SPAWN, y: DEFAULT_SPAWN },
        Vec2 { x: 0, y: 2 * SCALE },
        false,
    ));
    w.step_physics();
    assert_eq!(w.entities[0].bounds.max.y, 601 * SCALE);
    assert_eq!(w.entities[0].momentum.y, -(2 * SCALE * 9 / 10));
}

#[test]
fn bounce_negates_x_momentum_at_left_edge() {
    let mut w = World::new();
    w.entities.push(entity_at(
        Vec2 { x: 1 * SCALE, y: 100 * SCALE },
        Vec2 { x: DEFAULT_SPAWN, y: DEFAULT_SPAWN },
        Vec2 { x: -2 * SCALE, y: 0 },
        false,
    ));
    w.step_physics();
    assert_eq!(w.entities[0].bounds.min.x, -1 * SCALE);
    assert_eq!(w.entities[0].momentum.x, 2 * SCALE * 9 / 10);
}

#[test]
fn corner_bounce_negates_both_axes() {
    let mut w = World::new();
    w.entities.push(entity_at(
        Vec2 { x: 749 * SCALE, y: 549 * SCALE },
        Vec2 { x: DEFAULT_SPAWN, y: DEFAULT_SPAWN },
        Vec2 { x: 2 * SCALE, y: 2 * SCALE },
        false,
    ));
    w.step_physics();
    assert_eq!(w.entities[0].momentum, Vec2 { x: -1_800, y: -1_800 });
}

#[test]
fn draw_list_marks_the_controlled_entity_red() {
    let mut w = World::new();
    w.handle_click(Vec2 { x: 0, y: 0 }, Button::Primary);
    w.handle_click(Vec2 { x: 200 * SCALE, y: 0 }, Button::Primary);
    w.handle_click(Vec2 { x: 10, y: 10 }, Button::Secondary);
    let draws = w.draw_list();
    assert_eq!(draws.len(), 2);
    assert_eq!(draws[0].color, Color { r: 255, g: 0, b: 0, a: 255 });
    assert_eq!(draws[1].color, Color { r: 0, g: 255, b: 0, a: 255 });
    assert_eq!(draws[0].bounds, w.entities[0].bounds);
    assert_eq!(draws[1].bounds, w.entities[1].bounds);
}

#[test]
fn run_frame_equals_events_then_step() {
    let events = vec![
        Event::PointerButton { button: Button::Primary, pressed: true, pos: Vec2 { x: 0, y: 0 } },
        Event::PointerButton {
            button: Button::Secondary,
            pressed: true,
            pos: Vec2 { x: 10, y: 10 },
        },
        Event::Key { key: Key::Right, pressed: true },
        Event::PointerButton {
            button: Button::Primary,
            pressed: false,
            pos: Vec2 { x: 500, y: 500 },
        },
    ];
    let mut w = World::new();
    w.run_frame(&events);
    let mut m = World::new();
    for e in &events {
        m.handle_event(*e);
    }
    m.step_physics();
    assert_eq!(w.entities, m.entities);
    assert_eq!(w.controlled_index, m.controlled_index);
    assert_eq!(w.spawn_size, m.spawn_size);
}

#[test]
fn scenario_spawn_control_steer_step() {
    let mut w = World::new();
    assert_eq!(w.spawn_size, Vec2 { x: 50 * SCALE, y: 50 * SCALE });
    w.handle_click(Vec2 { x: 0, y: 0 }, Button::Primary);
    assert_eq!(w.entities[0].bounds.min, Vec2 { x: 0, y: 0 });
    assert_eq!(w.entities[0].bounds.max, Vec2 { x: 50 * SCALE, y: 50 * SCALE });
    assert_eq!(w.entities[0].momentum, Vec2 { x: 0, y: 0 });
    w.handle_click(Vec2 { x: 25 * SCALE, y: 25 * SCALE }, Button::Secondary);
    assert_eq!(w.controlled_index, Some(0));
    w.handle_key(Key::Right, true);
    // direction (1,0) * spawn (50,50) = (50,0); * 5 = (250,0); length
    // 250 exceeds 10, so the momentum clamps to exactly (10,0).
    assert_eq!(w.entities[0].momentum, Vec2 { x: 10 * SCALE, y: 0 });
    w.step_physics();
    assert_eq!(w.entities[0].bounds.min.x, 10 * SCALE);
    assert_eq!(w.entities[0].bounds.max.x, 60 * SCALE);
    assert_eq!(w.entities[0].momentum, Vec2 { x: 9 * SCALE, y: 0 });
}

#[test]
fn is_wf_rejects_inconsistent_worlds() {
    let mut w = World::new();
    w.controlled_index = Some(0);
    assert!(!w.is_wf());

    let mut w2 = World::new();
    w2.entities.push(entity_at(
        Vec2 { x: 0, y: 0 },
        Vec2 { x: DEFAULT_SPAWN, y: DEFAULT_SPAWN },
        Vec2 { x: 0, y: 0 },
        true,
    ));
    assert!(!w2.is_wf());

    let mut w3 = World::new();
    w3.spawn_size = Vec2 { x: 0, y: 0 };
    assert!(!w3.is_wf());

    let mut w4 = World::new();
    w4.entities.push(entity_at(
        Vec2 { x: 0, y: 0 },
        Vec2 { x: DEFAULT_SPAWN, y: DEFAULT_SPAWN },
        Vec2 { x: MOMENTUM_CAP + 1, y: 0 },
        false,
    ));
    assert!(!w4.is_wf());
}

#[test]
fn spawn_near_the_coordinate_limit_saturates() {
    let mut w = World::new();
    w.handle_click(Vec2 { x: i64::MAX - 1, y: 0 }, Button::Primary);
    assert_eq!(w.entities[0].bounds.min.x, i64::MAX - 1);
    assert_eq!(w.entities[0].bounds.max.x, i64::MAX);
    assert_eq!(w.entities[0].bounds.max.y, DEFAULT_SPAWN);
}
