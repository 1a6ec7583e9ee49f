use ecs_sim::command::{Command, CommandBuffer, DrawCmd, Target};
use ecs_sim::component::{
    Component, ComponentType, Coords, Global, MyColor, MySize, Rgba, Screen, Velocity, Weight,
    TTL,
};
use ecs_sim::coordinator::Coordinator;
use ecs_sim::entity::Entity;
use ecs_sim::input::TickInput;
use ecs_sim::random::{random_burst, BURST_COUNT, BURST_SPEED};
use ecs_sim::systems::{
    AnySystem, CursorInput, Gravity, IntegrateVelocity, MouseInput, Reaper, Renderer,
};

fn register_all(c: &mut Coordinator<AnySystem>) {
    c.register_component(ComponentType::Coords);
    c.register_component(ComponentType::MyColor);
    c.register_component(ComponentType::Velocity);
    c.register_component(ComponentType::MouseControlled);
    c.register_component(ComponentType::CursorControlled);
    c.register_component(ComponentType::Weight);
    c.register_component(ComponentType::MySize);
    c.register_component(ComponentType::TTL);
}

fn coords(c: &Coordinator<AnySystem>, e: Entity) -> Option<Coords> {
    match c.get_component(e, ComponentType::Coords) {
        Some(Component::Coords(p)) => Some(p),
        _ => None,
    }
}

fn velocity(c: &Coordinator<AnySystem>, e: Entity) -> Option<Velocity> {
    match c.get_component(e, ComponentType::Velocity) {
        Some(Component::Velocity(v)) => Some(v),
        _ => None,
    }
}

#[test]
fn a_new_engine_is_empty() {
    let c: Coordinator<AnySystem> = Coordinator::new();
    assert_eq!(c.entities_created(), 0);
    assert_eq!(c.system_count(), 0);
    assert!(!c.is_registered(ComponentType::Coords));
    assert_eq!(c.get_global(0), None);
}

#[test]
fn entities_get_fresh_identifiers() {
    let mut c: Coordinator<AnySystem> = Coordinator::new();
    let a = c.get_entity();
    let b = c.get_entity();
    let d = c.get_entity();
    assert_eq!(a.id(), 0);
    assert_eq!(b.id(), 1);
    assert_eq!(d.id(), 2);
    assert!(a < b && b < d);
    assert_eq!(c.entities_created(), 3);
}

#[test]
fn membership_follows_components() {
    let mut c: Coordinator<AnySystem> = Coordinator::new();
    register_all(&mut c);
    c.register_system(AnySystem::CursorInput(CursorInput::new()));
    c.register_system(AnySystem::Gravity(Gravity::new()));
    let e = c.get_entity();
    let f = c.get_entity();
    assert!(!c.has_member(0, e));
    assert!(!c.has_member(1, e));

    c.add_component(e, Component::Coords(Coords { x: 1, y: 2 }));
    assert!(!c.has_member(0, e));
    c.add_component(e, Component::CursorControlled(ecs_sim::component::CursorControlled {}));
    assert!(c.has_member(0, e));
    assert!(!c.has_member(0, f));
    assert!(!c.has_member(1, e));

    c.add_component(e, Component::Weight(Weight { w: 3 }));
    assert!(c.has_member(1, e));

    c.remove_component(e, ComponentType::Coords);
    assert!(!c.has_member(0, e));
    assert!(c.has_member(1, e));

    c.remove_component(e, ComponentType::Weight);
    assert!(!c.has_member(1, e));
    // Taking away what is not there changes nothing.
    c.remove_component(f, ComponentType::Weight);
    assert!(!c.has_member(1, f));
}

#[test]
fn replacing_a_component_keeps_membership() {
    let mut c: Coordinator<AnySystem> = Coordinator::new();
    register_all(&mut c);
    c.register_system(AnySystem::Gravity(Gravity::new()));
    let e = c.get_entity();
    c.add_component(e, Component::Weight(Weight { w: 1 }));
    c.add_component(e, Component::Weight(Weight { w: 7 }));
    assert!(c.has_member(0, e));
    assert_eq!(
        c.get_component(e, ComponentType::Weight),
        Some(Component::Weight(Weight { w: 7 }))
    );
}

#[test]
fn a_late_system_is_seeded_with_the_entities_that_qualify() {
    let mut c: Coordinator<AnySystem> = Coordinator::new();
    register_all(&mut c);
    let a = c.get_entity();
    let b = c.get_entity();
    let d = c.get_entity();
    c.add_component(a, Component::Weight(Weight { w: 1 }));
    c.add_component(b, Component::Coords(Coords { x: 0, y: 0 }));
    c.add_component(d, Component::Weight(Weight { w: -1 }));
    c.add_component(d, Component::Coords(Coords { x: 5, y: 5 }));
    c.register_system(AnySystem::Gravity(Gravity::new()));
    c.register_system(AnySystem::IntegrateVelocity(IntegrateVelocity::new()));
    assert!(c.has_member(0, a));
    assert!(!c.has_member(0, b));
    assert!(c.has_member(0, d));
    assert!(!c.has_member(1, a));
    assert!(c.has_member(1, b));
    assert!(c.has_member(1, d));
}

#[test]
fn systems_may_be_registered_before_component_types() {
    let mut c: Coordinator<AnySystem> = Coordinator::new();
    c.register_system(AnySystem::Gravity(Gravity::new()));
    assert!(!c.is_configured());
    c.register_component(ComponentType::Weight);
    assert!(!c.is_configured());
    c.register_component(ComponentType::Velocity);
    assert!(c.is_configured());
    let e = c.get_entity();
    c.add_component(e, Component::Weight(Weight { w: 1 }));
    assert!(c.has_member(0, e));
}

#[test]
fn registering_a_type_twice_keeps_the_components() {
    let mut c: Coordinator<AnySystem> = Coordinator::new();
    c.register_component(ComponentType::Coords);
    let e = c.get_entity();
    c.add_component(e, Component::Coords(Coords { x: 4, y: 5 }));
    c.register_component(ComponentType::Coords);
    assert_eq!(coords(&c, e), Some(Coords { x: 4, y: 5 }));
}

#[test]
fn gravity_accrual() {
    let mut c: Coordinator<AnySystem> = Coordinator::new();
    register_all(&mut c);
    c.register_system(AnySystem::Gravity(Gravity::new()));
    let e = c.get_entity();
    c.add_component(e, Component::Weight(Weight { w: 1 }));
    assert_eq!(velocity(&c, e), None);
    let input = TickInput::idle();
    c.run_tick(&input);
    assert_eq!(velocity(&c, e), Some(Velocity { vx: 0, vy: 1 }));
    c.run_tick(&input);
    assert_eq!(velocity(&c, e), Some(Velocity { vx: 0, vy: 2 }));
}

#[test]
fn a_negative_weight_lifts() {
    let mut c: Coordinator<AnySystem> = Coordinator::new();
    register_all(&mut c);
    c.register_system(AnySystem::Gravity(Gravity::new()));
    let e = c.get_entity();
    c.add_component(e, Component::Velocity(Velocity { vx: -2, vy: 0 }));
    c.add_component(e, Component::Weight(Weight { w: -1 }));
    let input = TickInput::idle();
    c.run_tick(&input);
    c.run_tick(&input);
    c.run_tick(&input);
    assert_eq!(velocity(&c, e), Some(Velocity { vx: -2, vy: -3 }));
}

#[test]
fn gravity_stops_at_the_ends_of_the_range() {
    assert_eq!(
        Gravity::pull(Velocity { vx: 3, vy: i32::MAX - 1 }, Weight { w: 5 }),
        Velocity { vx: 3, vy: i32::MAX }
    );
    assert_eq!(
        Gravity::pull(Velocity { vx: 3, vy: i32::MIN + 1 }, Weight { w: -5 }),
        Velocity { vx: 3, vy: i32::MIN }
    );
    assert_eq!(
        Gravity::pull(Velocity { vx: 0, vy: 7 }, Weight { w: -9 }),
        Velocity { vx: 0, vy: -2 }
    );
}

#[test]
fn zero_velocity_keeps_the_position() {
    let mut c: Coordinator<AnySystem> = Coordinator::new();
    register_all(&mut c);
    c.register_system(AnySystem::IntegrateVelocity(IntegrateVelocity::new()));
    let e = c.get_entity();
    c.add_component(e, Component::Coords(Coords { x: -17, y: 4000 }));
    c.add_component(e, Component::Velocity(Velocity { vx: 0, vy: 0 }));
    let input = TickInput::idle();
    for _ in 0..25 {
        c.run_tick(&input);
        assert_eq!(coords(&c, e), Some(Coords { x: -17, y: 4000 }));
    }
}

#[test]
fn integration_adds_the_velocity() {
    let mut c: Coordinator<AnySystem> = Coordinator::new();
    register_all(&mut c);
    c.register_system(AnySystem::IntegrateVelocity(IntegrateVelocity::new()));
    let moving = c.get_entity();
    let still = c.get_entity();
    c.add_component(moving, Component::Coords(Coords { x: 20, y: 30 }));
    c.add_component(moving, Component::Velocity(Velocity { vx: 5, vy: -2 }));
    c.add_component(still, Component::Coords(Coords { x: 1, y: 1 }));
    let input = TickInput::idle();
    c.run_tick(&input);
    assert_eq!(coords(&c, moving), Some(Coords { x: 25, y: 28 }));
    assert_eq!(coords(&c, still), Some(Coords { x: 1, y: 1 }));
    c.run_tick(&input);
    assert_eq!(coords(&c, moving), Some(Coords { x: 30, y: 26 }));
}

#[test]
fn positions_wrap_around() {
    assert_eq!(
        IntegrateVelocity::advance(Coords { x: i32::MAX, y: i32::MIN }, Velocity { vx: 1, vy: -1 }),
        Coords { x: i32::MIN, y: i32::MAX }
    );
    assert_eq!(ecs_sim::systems::velocity::wrapping_sum(i32::MAX, i32::MAX), -2);
    assert_eq!(ecs_sim::systems::velocity::wrapping_sum(i32::MIN, i32::MIN), 0);
    assert_eq!(ecs_sim::systems::velocity::wrapping_sum(7, -9), -2);
}

#[test]
fn gravity_then_integration_in_registration_order() {
    let mut c: Coordinator<AnySystem> = Coordinator::new();
    register_all(&mut c);
    c.register_system(AnySystem::IntegrateVelocity(IntegrateVelocity::new()));
    c.register_system(AnySystem::Gravity(Gravity::new()));
    let e = c.get_entity();
    c.add_component(e, Component::Coords(Coords { x: 20, y: 60 }));
    c.add_component(e, Component::Velocity(Velocity { vx: 1, vy: 2 }));
    c.add_component(e, Component::Weight(Weight { w: 1 }));
    let input = TickInput::idle();
    c.run_tick(&input);
    // Integration ran first, on the velocity of before the tick.
    assert_eq!(coords(&c, e), Some(Coords { x: 21, y: 62 }));
    assert_eq!(velocity(&c, e), Some(Velocity { vx: 1, vy: 3 }));
    c.run_tick(&input);
    assert_eq!(coords(&c, e), Some(Coords { x: 22, y: 65 }));
    assert_eq!(velocity(&c, e), Some(Velocity { vx: 1, vy: 4 }));
}

#[test]
fn the_other_order_gives_another_result() {
    let mut c: Coordinator<AnySystem> = Coordinator::new();
    register_all(&mut c);
    c.register_system(AnySystem::Gravity(Gravity::new()));
    c.register_system(AnySystem::IntegrateVelocity(IntegrateVelocity::new()));
    let e = c.get_entity();
    c.add_component(e, Component::Coords(Coords { x: 20, y: 60 }));
    c.add_component(e, Component::Velocity(Velocity { vx: 1, vy: 2 }));
    c.add_component(e, Component::Weight(Weight { w: 1 }));
    c.run_tick(&TickInput::idle());
    assert_eq!(coords(&c, e), Some(Coords { x: 21, y: 63 }));
}

#[test]
fn gravity_makes_an_entity_without_position_no_member_of_integration() {
    let mut c: Coordinator<AnySystem> = Coordinator::new();
    register_all(&mut c);
    c.register_system(AnySystem::Gravity(Gravity::new()));
    c.register_system(AnySystem::IntegrateVelocity(IntegrateVelocity::new()));
    let e = c.get_entity();
    c.add_component(e, Component::Weight(Weight { w: 2 }));
    c.run_tick(&TickInput::idle());
    assert!(c.has_member(0, e));
    assert!(!c.has_member(1, e));
    assert!(c.has_component(e, ComponentType::Velocity));
}

fn build(seed: i32) -> Coordinator<AnySystem> {
    let mut c: Coordinator<AnySystem> = Coordinator::new();
    register_all(&mut c);
    c.register_system(AnySystem::Renderer(Renderer::new(Screen { width: 640, height: 480 })));
    c.register_system(AnySystem::MouseInput(MouseInput::new()));
    c.register_system(AnySystem::CursorInput(CursorInput::new()));
    c.register_system(AnySystem::IntegrateVelocity(IntegrateVelocity::new()));
    c.register_system(AnySystem::Gravity(Gravity::new()));
    c.register_system(AnySystem::Reaper(Reaper::new()));
    let mouse = c.get_entity();
    let cursor = c.get_entity();
    let e0 = c.get_entity();
    let e1 = c.get_entity();
    c.add_component(mouse, Component::Coords(Coords { x: 70, y: 90 }));
    c.add_component(mouse, Component::MouseControlled(ecs_sim::component::MouseControlled {}));
    c.add_component(cursor, Component::Coords(Coords { x: 30, y: 130 }));
    c.add_component(cursor, Component::CursorControlled(ecs_sim::component::CursorControlled {}));
    c.add_component(e0, Component::Coords(Coords { x: 230, y: 130 }));
    c.add_component(e0, Component::TTL(TTL { ttl: 3 }));
    c.add_component(e1, Component::Coords(Coords { x: 20, y: seed }));
    c.add_component(e1, Component::Velocity(Velocity { vx: 5, vy: 0 }));
    c.add_component(e1, Component::Weight(Weight { w: 1 }));
    c
}

fn snapshot(c: &Coordinator<AnySystem>) -> Vec<(u64, ComponentType, Option<Component>)> {
    let kinds = [
        ComponentType::Coords,
        ComponentType::MySize,
        ComponentType::MyColor,
        ComponentType::Velocity,
        ComponentType::TTL,
        ComponentType::Weight,
        ComponentType::MouseControlled,
        ComponentType::CursorControlled,
    ];
    let mut out = Vec::new();
    for id in 0..c.entities_created() {
        for kind in kinds.iter() {
            out.push((id, *kind, c.get_component(Entity { id }, *kind)));
        }
    }
    out
}

fn members(c: &Coordinator<AnySystem>) -> Vec<(usize, u64)> {
    let mut out = Vec::new();
    for i in 0..c.system_count() {
        for id in 0..c.entities_created() {
            if c.has_member(i, Entity { id }) {
                out.push((i, id));
            }
        }
    }
    out
}

#[test]
fn the_same_state_and_input_give_the_same_tick() {
    let mut a = build(30);
    let mut b = build(30);
    let burst = random_burst(BURST_COUNT, BURST_SPEED);
    for round in 0..6 {
        let input = TickInput {
            key_right: round % 2 == 0,
            key_left: false,
            key_up: round % 3 == 0,
            key_down: false,
            mouse_x: 100 + round,
            mouse_y: 200 - round,
            mouse_pressed: round == 1,
            burst: burst.clone(),
        };
        let frame_a = a.run_tick(&input);
        let frame_b = b.run_tick(&input);
        assert_eq!(frame_a, frame_b);
        assert_eq!(a.entities_created(), b.entities_created());
        assert_eq!(snapshot(&a), snapshot(&b));
        assert_eq!(members(&a), members(&b));
    }
    // One click and one burst happened on the way.
    assert_eq!(a.entities_created(), 4 + 1 + BURST_COUNT as u64);
}

#[test]
fn another_state_gives_another_tick() {
    let mut a = build(30);
    let mut b = build(31);
    let input = TickInput::idle();
    a.run_tick(&input);
    b.run_tick(&input);
    assert_ne!(snapshot(&a), snapshot(&b));
}

#[test]
fn globals_are_kept_apart_from_components() {
    let mut c = build(30);
    let screen = Global::Screen(Screen { width: 640, height: 480 });
    c.add_global(7, screen);
    assert_eq!(c.get_global(7), Some(screen));
    assert_eq!(c.get_global(8), None);
    let e = c.get_entity();
    c.add_component(e, Component::Coords(Coords { x: 1, y: 1 }));
    c.remove_component(e, ComponentType::Coords);
    c.register_component(ComponentType::Coords);
    let mut input = TickInput::idle();
    input.mouse_pressed = true;
    input.burst = random_burst(BURST_COUNT, BURST_SPEED);
    for _ in 0..5 {
        c.run_tick(&input);
    }
    assert_eq!(c.get_global(7), Some(screen));
    assert_eq!(c.get_global(8), None);
    let value = Global::Value(Component::Weight(Weight { w: 4 }));
    c.add_global(8, value);
    assert_eq!(c.get_global(7), Some(screen));
    assert_eq!(c.get_global(8), Some(value));
    c.add_global(7, value);
    assert_eq!(c.get_global(7), Some(value));
}

#[test]
fn a_click_makes_an_entity_after_the_execution_phase() {
    let mut c: Coordinator<AnySystem> = Coordinator::new();
    register_all(&mut c);
    c.register_system(AnySystem::MouseInput(MouseInput::new()));
    c.register_system(AnySystem::Reaper(Reaper::new()));
    c.register_system(AnySystem::Renderer(Renderer::new(Screen { width: 640, height: 480 })));
    let mouse = c.get_entity();
    c.add_component(mouse, Component::Coords(Coords { x: 70, y: 90 }));
    c.add_component(mouse, Component::MouseControlled(ecs_sim::component::MouseControlled {}));

    let mut input = TickInput::idle();
    input.mouse_x = 11;
    input.mouse_y = 22;
    input.mouse_pressed = true;

    let bufs = c.apply_all(&input);
    // The pointer's entity has moved, but nothing was created yet.
    assert_eq!(coords(&c, mouse), Some(Coords { x: 11, y: 22 }));
    assert_eq!(c.entities_created(), 1);
    let fresh = Entity { id: 1 };
    assert!(!c.has_component(fresh, ComponentType::Coords));
    assert_eq!(bufs.len(), 3);
    assert_eq!(bufs[0].len(), 5);
    assert_eq!(bufs[0].get(0), Command::CreateEntity);
    assert_eq!(
        bufs[0].get(1),
        Command::AttachComponent(Target::Created, Component::Coords(Coords { x: 11, y: 22 }))
    );
    assert!(bufs[1].is_empty());
    // The renderer ran in the same tick and did not see the new entity.
    let circles = (0..bufs[2].len())
        .filter(|i| matches!(bufs[2].get(*i), Command::Draw(DrawCmd::Circle { .. })))
        .count();
    assert_eq!(circles, 1);

    let frame = c.apply_commands(&bufs);
    assert_eq!(c.entities_created(), 2);
    assert_eq!(coords(&c, fresh), Some(Coords { x: 11, y: 22 }));
    assert_eq!(
        c.get_component(fresh, ComponentType::MySize),
        Some(Component::MySize(MySize { s: 3 }))
    );
    assert_eq!(
        c.get_component(fresh, ComponentType::TTL),
        Some(Component::TTL(TTL { ttl: 40 }))
    );
    assert_eq!(
        c.get_component(fresh, ComponentType::MyColor),
        Some(Component::MyColor(MyColor { c: Rgba { r: 205, g: 92, b: 92, a: 255 } }))
    );
    assert!(!c.has_component(fresh, ComponentType::Weight));
    // From the next tick on it is a member of the reaper and of the renderer.
    assert!(!c.has_member(0, fresh));
    assert!(c.has_member(1, fresh));
    assert!(c.has_member(2, fresh));
    assert_eq!(frame.len(), 6);

    input.mouse_pressed = false;
    let frame = c.run_tick(&input);
    assert_eq!(frame.len(), 7);
    assert_eq!(
        c.get_component(fresh, ComponentType::TTL),
        Some(Component::TTL(TTL { ttl: 39 }))
    );
}

#[test]
fn an_expired_entity_goes_out_in_a_burst() {
    let mut c: Coordinator<AnySystem> = Coordinator::new();
    register_all(&mut c);
    c.register_system(AnySystem::Reaper(Reaper::new()));
    let e = c.get_entity();
    c.add_component(e, Component::TTL(TTL { ttl: 2 }));
    c.add_component(e, Component::Coords(Coords { x: 10, y: 10 }));

    let mut input = TickInput::idle();
    input.burst = random_burst(BURST_COUNT, BURST_SPEED);
    c.run_tick(&input);
    assert_eq!(c.get_component(e, ComponentType::TTL), Some(Component::TTL(TTL { ttl: 1 })));
    assert_eq!(c.entities_created(), 1);
    assert!(c.has_member(0, e));

    input.burst = random_burst(BURST_COUNT, BURST_SPEED);
    c.run_tick(&input);
    assert_eq!(c.get_component(e, ComponentType::TTL), None);
    assert!(!c.has_member(0, e));
    assert_eq!(coords(&c, e), Some(Coords { x: 10, y: 10 }));
    assert_eq!(c.entities_created(), 1 + BURST_COUNT as u64);
    assert_eq!(BURST_COUNT, 9);
    for (k, id) in (1..c.entities_created()).enumerate() {
        let p = Entity { id };
        assert_eq!(coords(&c, p), Some(Coords { x: 10, y: 10 }));
        let v = velocity(&c, p).unwrap();
        assert_eq!(v, input.burst[k]);
        assert!(-BURST_SPEED <= v.vx && v.vx <= BURST_SPEED);
        assert!(-BURST_SPEED <= v.vy && v.vy <= BURST_SPEED);
        assert_eq!(
            c.get_component(p, ComponentType::Weight),
            Some(Component::Weight(Weight { w: 2 }))
        );
        assert_eq!(
            c.get_component(p, ComponentType::MySize),
            Some(Component::MySize(MySize { s: 2 }))
        );
        assert_eq!(
            c.get_component(p, ComponentType::MyColor),
            Some(Component::MyColor(MyColor { c: Rgba { r: 138, g: 43, b: 226, a: 255 } }))
        );
        assert!(!c.has_component(p, ComponentType::TTL));
        assert!(!c.has_member(0, p));
    }
    // Nothing is left to expire.
    c.run_tick(&input);
    assert_eq!(c.entities_created(), 1 + BURST_COUNT as u64);
}

#[test]
fn one_burst_per_tick_from_the_lowest_expiring_entity() {
    let mut c: Coordinator<AnySystem> = Coordinator::new();
    register_all(&mut c);
    c.register_system(AnySystem::Reaper(Reaper::new()));
    let hidden = c.get_entity();
    let first = c.get_entity();
    let second = c.get_entity();
    let later = c.get_entity();
    c.add_component(hidden, Component::TTL(TTL { ttl: 1 }));
    c.add_component(first, Component::TTL(TTL { ttl: 0 }));
    c.add_component(first, Component::Coords(Coords { x: 1, y: 2 }));
    c.add_component(second, Component::TTL(TTL { ttl: 1 }));
    c.add_component(second, Component::Coords(Coords { x: 3, y: 4 }));
    c.add_component(later, Component::TTL(TTL { ttl: 5 }));
    c.add_component(later, Component::Coords(Coords { x: 5, y: 6 }));

    let mut input = TickInput::idle();
    input.burst = vec![Velocity { vx: 1, vy: -1 }; 9];
    input.burst[1] = Velocity { vx: -20, vy: 20 };
    c.run_tick(&input);
    // Every count went down, and all that ran out are gone.
    assert!(!c.has_component(hidden, ComponentType::TTL));
    assert!(!c.has_component(first, ComponentType::TTL));
    assert!(!c.has_component(second, ComponentType::TTL));
    assert_eq!(c.get_component(later, ComponentType::TTL), Some(Component::TTL(TTL { ttl: 4 })));
    // One burst, at the first expiring entity that has a position.
    assert_eq!(c.entities_created(), 4 + 9);
    for id in 4..13 {
        assert_eq!(coords(&c, Entity { id }), Some(Coords { x: 1, y: 2 }));
    }
    assert_eq!(coords(&c, Entity { id: 4 }), Some(Coords { x: 1, y: 2 }));
    assert_eq!(coords(&c, Entity { id: 5 }), Some(Coords { x: 1, y: 2 }));
    assert_eq!(velocity(&c, Entity { id: 4 }), Some(Velocity { vx: 1, vy: -1 }));
    assert_eq!(velocity(&c, Entity { id: 5 }), Some(Velocity { vx: -20, vy: 20 }));
}

#[test]
fn an_expiring_entity_without_position_starts_no_burst() {
    let mut c: Coordinator<AnySystem> = Coordinator::new();
    register_all(&mut c);
    c.register_system(AnySystem::Reaper(Reaper::new()));
    let e = c.get_entity();
    c.add_component(e, Component::TTL(TTL { ttl: i32::MIN }));
    let mut input = TickInput::idle();
    input.burst = random_burst(BURST_COUNT, BURST_SPEED);
    c.run_tick(&input);
    assert!(!c.has_component(e, ComponentType::TTL));
    assert_eq!(c.entities_created(), 1);
}

#[test]
fn the_arrow_keys_move_the_marked_entities() {
    let mut c: Coordinator<AnySystem> = Coordinator::new();
    register_all(&mut c);
    c.register_system(AnySystem::CursorInput(CursorInput::new()));
    let cursor = c.get_entity();
    let other = c.get_entity();
    c.add_component(cursor, Component::Coords(Coords { x: 30, y: 130 }));
    c.add_component(cursor, Component::CursorControlled(ecs_sim::component::CursorControlled {}));
    c.add_component(other, Component::Coords(Coords { x: 1, y: 1 }));

    let mut input = TickInput::idle();
    input.key_right = true;
    input.key_up = true;
    c.run_tick(&input);
    assert_eq!(coords(&c, cursor), Some(Coords { x: 31, y: 129 }));
    assert_eq!(coords(&c, other), Some(Coords { x: 1, y: 1 }));

    input.key_left = true;
    input.key_down = true;
    c.run_tick(&input);
    assert_eq!(coords(&c, cursor), Some(Coords { x: 31, y: 129 }));

    input.key_right = false;
    input.key_up = false;
    c.run_tick(&input);
    assert_eq!(coords(&c, cursor), Some(Coords { x: 30, y: 130 }));

    c.run_tick(&TickInput::idle());
    assert_eq!(coords(&c, cursor), Some(Coords { x: 30, y: 130 }));
}

#[test]
fn the_renderer_draws_what_has_a_position() {
    let mut c: Coordinator<AnySystem> = Coordinator::new();
    register_all(&mut c);
    c.register_system(AnySystem::Renderer(Renderer::new(Screen { width: 640, height: 480 })));
    let plain = c.get_entity();
    let nowhere = c.get_entity();
    let styled = c.get_entity();
    c.add_component(plain, Component::Coords(Coords { x: 20, y: 60 }));
    c.add_component(nowhere, Component::MySize(MySize { s: 4 }));
    c.add_component(styled, Component::Coords(Coords { x: 70, y: 90 }));
    c.add_component(styled, Component::MySize(MySize { s: 0 }));
    c.add_component(
        styled,
        Component::MyColor(MyColor { c: Rgba { r: 255, g: 165, b: 0, a: 255 } }),
    );
    let before = snapshot(&c);
    let frame = c.run_tick(&TickInput::idle());
    assert_eq!(snapshot(&c), before);
    assert_eq!(frame.len(), 7);
    assert_eq!(frame[0], DrawCmd::Clear(Rgba { r: 169, g: 169, b: 169, a: 255 }));
    assert_eq!(
        frame[1],
        DrawCmd::Line {
            x1: 30,
            y1: 30,
            x2: 130,
            y2: 130,
            color: Rgba { r: 0, g: 191, b: 255, a: 255 }
        }
    );
    assert_eq!(
        frame[2],
        DrawCmd::Label {
            bounds: ecs_sim::command::Rect { x: 645, y: 5, width: 100, height: 30 }
        }
    );
    assert_eq!(
        frame[3],
        DrawCmd::Button {
            bounds: ecs_sim::command::Rect { x: 645, y: 35, width: 100, height: 30 }
        }
    );
    assert_eq!(
        frame[4],
        DrawCmd::ListView {
            bounds: ecs_sim::command::Rect { x: 645, y: 70, width: 100, height: 200 }
        }
    );
    assert_eq!(
        frame[5],
        DrawCmd::Circle { x: 20, y: 60, radius: 10, color: Rgba { r: 0, g: 255, b: 255, a: 255 } }
    );
    assert_eq!(
        frame[6],
        DrawCmd::Circle { x: 70, y: 90, radius: 0, color: Rgba { r: 255, g: 165, b: 0, a: 255 } }
    );
}

#[test]
fn operations_on_a_missing_created_entity_do_nothing() {
    let mut c: Coordinator<AnySystem> = Coordinator::new();
    register_all(&mut c);
    let e = c.get_entity();
    c.add_component(e, Component::Coords(Coords { x: 1, y: 1 }));
    let mut first = CommandBuffer::new();
    first.push(Command::CreateEntity);
    let mut second = CommandBuffer::new();
    // The entity that the first buffer made is not this buffer's.
    second.push(Command::AttachComponent(Target::Created, Component::Weight(Weight { w: 1 })));
    second.push(Command::RemoveComponent(Target::Existing(e), ComponentType::Coords));
    second.push(Command::AttachComponent(
        Target::Existing(e),
        Component::Velocity(Velocity { vx: 1, vy: 1 }),
    ));
    second.push(Command::Draw(DrawCmd::Clear(Rgba { r: 1, g: 2, b: 3, a: 4 })));
    let frame = c.apply_commands(&vec![first, second]);
    assert_eq!(c.entities_created(), 2);
    assert!(!c.has_component(Entity { id: 1 }, ComponentType::Weight));
    assert!(!c.has_component(e, ComponentType::Coords));
    assert_eq!(velocity(&c, e), Some(Velocity { vx: 1, vy: 1 }));
    assert_eq!(frame, vec![DrawCmd::Clear(Rgba { r: 1, g: 2, b: 3, a: 4 })]);
}

#[test]
fn commands_bring_the_member_sets_up_to_date() {
    let mut c: Coordinator<AnySystem> = Coordinator::new();
    register_all(&mut c);
    c.register_system(AnySystem::Gravity(Gravity::new()));
    let e = c.get_entity();
    c.add_component(e, Component::Weight(Weight { w: 1 }));
    let mut buf = CommandBuffer::new();
    buf.push(Command::RemoveComponent(Target::Existing(e), ComponentType::Weight));
    buf.push(Command::CreateEntity);
    buf.push(Command::AttachComponent(Target::Created, Component::Weight(Weight { w: 9 })));
    buf.push(Command::CreateEntity);
    buf.push(Command::AttachComponent(Target::Created, Component::Coords(Coords { x: 0, y: 0 })));
    c.apply_commands(&vec![buf]);
    assert!(!c.has_member(0, e));
    assert!(c.has_member(0, Entity { id: 1 }));
    assert!(!c.has_member(0, Entity { id: 2 }));
    assert_eq!(coords(&c, Entity { id: 2 }), Some(Coords { x: 0, y: 0 }));
}

#[test]
fn random_bursts_are_bounded_and_vary() {
    let burst = random_burst(400, BURST_SPEED);
    assert_eq!(burst.len(), 400);
    for v in burst.iter() {
        assert!(-BURST_SPEED <= v.vx && v.vx <= BURST_SPEED);
        assert!(-BURST_SPEED <= v.vy && v.vy <= BURST_SPEED);
    }
    assert!(burst.iter().any(|v| v.vx != -BURST_SPEED));
    assert!(burst.iter().any(|v| v.vx != BURST_SPEED));
    assert!(burst.iter().any(|v| v.vx != burst[0].vx));
    assert!(burst.iter().any(|v| v.vy != burst[0].vy));
    let still = random_burst(5, 0);
    for v in still.iter() {
        assert_eq!(*v, Velocity { vx: 0, vy: 0 });
    }
    assert!(random_burst(0, BURST_SPEED).is_empty());
}

#[test]
fn an_engine_may_hold_systems_of_one_type_only() {
    let mut c: Coordinator<Gravity> = Coordinator::new();
    c.register_component(ComponentType::Weight);
    c.register_component(ComponentType::Velocity);
    c.register_system(Gravity::new());
    c.register_system(Gravity::new());
    assert!(c.is_configured());
    let e = c.get_entity();
    c.add_component(e, Component::Weight(Weight { w: 3 }));
    assert!(c.has_member(0, e));
    assert!(c.has_member(1, e));
    let frame = c.run_tick(&TickInput::idle());
    assert!(frame.is_empty());
    // Both systems pulled once, one after the other.
    assert_eq!(
        c.get_component(e, ComponentType::Velocity),
        Some(Component::Velocity(Velocity { vx: 0, vy: 6 }))
    );
}

#[test]
fn a_system_that_requires_nothing_has_every_entity_as_member() {
    let mut c: Coordinator<AnySystem> = Coordinator::new();
    register_all(&mut c);
    let early = c.get_entity();
    c.register_system(AnySystem::Renderer(Renderer::new(Screen { width: 640, height: 480 })));
    c.register_system(AnySystem::Gravity(Gravity::new()));
    // The renderer took in the entity that was there, bare as it is.
    assert!(c.has_member(0, early));
    assert!(!c.has_member(1, early));
    assert!(!c.has_member(0, Entity { id: 1 }));
    // A new entity is its member at once, and holds nothing.
    let late = c.get_entity();
    assert!(c.has_member(0, late));
    assert!(!c.has_member(1, late));
    for i in 0..8 {
        assert!(!c.has_component(late, ComponentType::from_index(i)));
    }
    c.add_component(late, Component::Weight(Weight { w: 1 }));
    c.remove_component(late, ComponentType::Weight);
    assert!(c.has_member(0, late));
    assert!(!c.has_member(1, late));
    // Entities that a tick creates are members after the tick.
    let mut buf = CommandBuffer::new();
    buf.push(Command::CreateEntity);
    buf.push(Command::CreateEntity);
    buf.push(Command::AttachComponent(Target::Created, Component::Weight(Weight { w: 1 })));
    c.apply_commands(&vec![buf]);
    assert!(c.has_member(0, Entity { id: 2 }));
    assert!(c.has_member(0, Entity { id: 3 }));
    assert!(!c.has_member(1, Entity { id: 2 }));
    assert!(c.has_member(1, Entity { id: 3 }));
    assert!(!c.has_member(0, Entity { id: 4 }));
    // It draws only what has a position.
    let frame = c.run_tick(&TickInput::idle());
    assert_eq!(frame.len(), 5);
}

#[test]
fn operations_on_an_entity_that_was_never_created_do_nothing() {
    let mut c: Coordinator<AnySystem> = Coordinator::new();
    register_all(&mut c);
    c.register_system(AnySystem::Gravity(Gravity::new()));
    let e = c.get_entity();
    let ghost = Entity { id: 5 };
    let mut buf = CommandBuffer::new();
    buf.push(Command::AttachComponent(Target::Existing(ghost), Component::Weight(Weight { w: 1 })));
    buf.push(Command::RemoveComponent(Target::Existing(ghost), ComponentType::Weight));
    buf.push(Command::AttachComponent(Target::Existing(e), Component::Weight(Weight { w: 2 })));
    c.apply_commands(&vec![buf]);
    assert!(!c.has_component(ghost, ComponentType::Weight));
    assert!(!c.has_member(0, ghost));
    assert!(c.has_member(0, e));
    assert_eq!(c.entities_created(), 1);
    // Once the entity exists, it holds nothing of what was asked before.
    for _ in 0..5 {
        c.get_entity();
    }
    assert!(!c.has_component(ghost, ComponentType::Weight));
    assert!(!c.has_member(0, ghost));
}
