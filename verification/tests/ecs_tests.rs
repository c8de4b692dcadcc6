use game_core::ecs::player::Player;
use game_core::ecs::{
    movement_system, render_system, EntityAllocator, Position, Sprite, SpriteDraw, Velocity, ECS,
};
use game_core::quadtree::rect::Rectangle;
use game_core::quadtree::Quadtree;

#[test]
fn allocator_counts_up_from_zero() {
    let mut allocator = EntityAllocator::new();
    assert_eq!(allocator.allocate(), 0);
    assert_eq!(allocator.allocate(), 1);
    assert_eq!(allocator.allocate(), 2);
}

#[test]
fn allocator_hands_out_increasing_identifiers() {
    let mut allocator = EntityAllocator::starting_at(1000);
    let mut last = allocator.allocate();
    assert_eq!(last, 1000);
    for _ in 0..500 {
        let next = allocator.allocate();
        assert!(next > last);
        last = next;
    }
}

#[test]
fn allocator_wraps_to_zero_after_the_greatest_identifier() {
    let mut allocator = EntityAllocator::starting_at(u32::MAX - 1);
    assert_eq!(allocator.allocate(), u32::MAX - 1);
    assert_eq!(allocator.allocate(), u32::MAX);
    assert_eq!(allocator.allocate(), 0);
    assert_eq!(allocator.allocate(), 1);
}

#[test]
fn store_allocates_entities_from_zero() {
    let mut ecs = ECS::new();
    assert_eq!(ecs.allocate_entity(), 0);
    assert_eq!(ecs.allocate_entity(), 1);
    assert_eq!(ecs.allocate_entity(), 2);
}

#[test]
fn fresh_entity_has_no_component() {
    let mut ecs = ECS::new();
    let e = ecs.allocate_entity();
    assert_eq!(ecs.get_position(e), None);
    assert_eq!(ecs.get_velocity(e), None);
    assert_eq!(ecs.get_sprite(e), None);
}

#[test]
fn added_components_are_found() {
    let mut ecs = ECS::new();
    let e = ecs.allocate_entity();
    ecs.add_position(e, 3, -4);
    ecs.add_velocity(e, -1, 2);
    ecs.add_sprite(e, 17);
    assert_eq!(ecs.get_position(e), Some(&Position { x: 3, y: -4 }));
    assert_eq!(ecs.get_velocity(e), Some(&Velocity { dx: -1, dy: 2 }));
    assert_eq!(ecs.get_sprite(e), Some(&Sprite { texture: 17 }));
}

#[test]
fn first_component_of_a_kind_stays() {
    let mut ecs = ECS::new();
    let e = ecs.allocate_entity();
    ecs.add_position(e, 1, 2);
    ecs.add_position(e, 3, 4);
    ecs.add_velocity(e, 5, 6);
    ecs.add_velocity(e, 7, 8);
    ecs.add_sprite(e, 9);
    ecs.add_sprite(e, 10);
    assert_eq!(ecs.get_position(e), Some(&Position { x: 1, y: 2 }));
    assert_eq!(ecs.get_velocity(e), Some(&Velocity { dx: 5, dy: 6 }));
    assert_eq!(ecs.get_sprite(e), Some(&Sprite { texture: 9 }));
}

#[test]
fn pools_are_independent() {
    let mut ecs = ECS::new();
    let a = ecs.allocate_entity();
    let b = ecs.allocate_entity();
    ecs.add_position(a, 1, 1);
    ecs.add_velocity(b, 2, 2);
    assert_eq!(ecs.get_velocity(a), None);
    assert_eq!(ecs.get_position(b), None);
    assert_eq!(ecs.get_position(a), Some(&Position { x: 1, y: 1 }));
    assert_eq!(ecs.get_velocity(b), Some(&Velocity { dx: 2, dy: 2 }));
}

#[test]
fn sprites_may_share_a_texture() {
    let mut ecs = ECS::new();
    let a = ecs.allocate_entity();
    let b = ecs.allocate_entity();
    ecs.add_sprite(a, 4);
    ecs.add_sprite(b, 4);
    assert_eq!(ecs.get_sprite(a), ecs.get_sprite(b));
}

#[test]
fn movement_adds_velocity_to_position() {
    let mut ecs = ECS::new();
    let e = ecs.allocate_entity();
    ecs.add_position(e, 10, 20);
    ecs.add_velocity(e, 1, -2);
    movement_system(&mut ecs);
    assert_eq!(ecs.get_position(e), Some(&Position { x: 11, y: 18 }));
    assert_eq!(ecs.get_velocity(e), Some(&Velocity { dx: 1, dy: -2 }));
}

#[test]
fn movement_skips_velocity_without_position() {
    let mut ecs = ECS::new();
    let ghost = ecs.allocate_entity();
    let e = ecs.allocate_entity();
    ecs.add_velocity(ghost, 3, 3);
    ecs.add_position(e, 0, 0);
    ecs.add_velocity(e, 1, 1);
    movement_system(&mut ecs);
    assert_eq!(ecs.get_position(ghost), None);
    assert_eq!(ecs.get_velocity(ghost), Some(&Velocity { dx: 3, dy: 3 }));
    assert_eq!(ecs.get_position(e), Some(&Position { x: 1, y: 1 }));
}

#[test]
fn movement_leaves_position_without_velocity() {
    let mut ecs = ECS::new();
    let e = ecs.allocate_entity();
    ecs.add_position(e, 5, 6);
    movement_system(&mut ecs);
    assert_eq!(ecs.get_position(e), Some(&Position { x: 5, y: 6 }));
}

#[test]
fn movement_moves_each_entity_once_per_tick() {
    let mut ecs = ECS::new();
    let a = ecs.allocate_entity();
    let b = ecs.allocate_entity();
    ecs.add_position(a, 10, 20);
    ecs.add_velocity(a, 1, -2);
    ecs.add_position(b, 0, 0);
    ecs.add_velocity(b, -3, 4);
    movement_system(&mut ecs);
    movement_system(&mut ecs);
    assert_eq!(ecs.get_position(a), Some(&Position { x: 12, y: 16 }));
    assert_eq!(ecs.get_position(b), Some(&Position { x: -6, y: 8 }));
}

#[test]
fn movement_holds_at_the_ends_of_the_range() {
    let mut ecs = ECS::new();
    let e = ecs.allocate_entity();
    ecs.add_position(e, i32::MAX - 1, i32::MIN + 1);
    ecs.add_velocity(e, 5, -5);
    movement_system(&mut ecs);
    assert_eq!(ecs.get_position(e), Some(&Position { x: i32::MAX, y: i32::MIN }));
    movement_system(&mut ecs);
    assert_eq!(ecs.get_position(e), Some(&Position { x: i32::MAX, y: i32::MIN }));
}

#[test]
fn render_lists_sprites_that_have_a_position_in_storage_order() {
    let mut ecs = ECS::new();
    let a = ecs.allocate_entity();
    let b = ecs.allocate_entity();
    let c = ecs.allocate_entity();
    ecs.add_position(a, 3, 4);
    ecs.add_position(c, 5, 6);
    ecs.add_sprite(c, 7);
    ecs.add_sprite(b, 8);
    ecs.add_sprite(a, 9);
    let tree = Quadtree::new(Rectangle { x: 0, y: 0, width: 100, height: 100 });
    let frame = render_system(&ecs, &tree);
    assert_eq!(
        frame.sprites,
        vec![SpriteDraw { texture: 7, x: 5, y: 6 }, SpriteDraw { texture: 9, x: 3, y: 4 }]
    );
    assert!(frame.outlines.is_empty());
}

#[test]
fn render_lists_the_outlines_of_the_tree() {
    let mut ecs = ECS::new();
    let a = ecs.allocate_entity();
    let b = ecs.allocate_entity();
    ecs.add_position(a, 1, 1);
    ecs.add_position(b, 99, 99);
    let mut tree = Quadtree::new(Rectangle { x: 0, y: 0, width: 100, height: 100 });
    tree.add_entity(&ecs, &a);
    tree.add_entity(&ecs, &b);
    let frame = render_system(&ecs, &tree);
    assert_eq!(frame.outlines, tree.draw());
    assert_eq!(frame.outlines.len(), 4);
    assert!(frame.sprites.is_empty());
}

#[test]
fn player_starts_at_rest() {
    let mut ecs = ECS::new();
    let first = ecs.allocate_entity();
    let player = Player::new(&mut ecs);
    assert_eq!(first, 0);
    assert_eq!(player.get_id(), 1);
    assert_eq!(ecs.get_position(player.get_id()), Some(&Position { x: 40, y: 40 }));
    assert_eq!(ecs.get_velocity(player.get_id()), Some(&Velocity { dx: 0, dy: 0 }));
    assert_eq!(ecs.get_sprite(player.get_id()), None);
}

fn steered(up: bool, down: bool, left: bool, right: bool) -> Velocity {
    let mut ecs = ECS::new();
    let player = Player::new(&mut ecs);
    assert!(player.input(&mut ecs, up, down, left, right));
    *ecs.get_velocity(player.get_id()).unwrap()
}

#[test]
fn player_input_sets_velocity_from_keys() {
    assert_eq!(steered(false, false, false, false), Velocity { dx: 0, dy: 0 });
    assert_eq!(steered(true, false, false, false), Velocity { dx: 0, dy: -10 });
    assert_eq!(steered(false, true, false, false), Velocity { dx: 0, dy: 10 });
    assert_eq!(steered(false, false, true, false), Velocity { dx: -10, dy: 0 });
    assert_eq!(steered(false, false, false, true), Velocity { dx: 10, dy: 0 });
    assert_eq!(steered(true, false, false, true), Velocity { dx: 10, dy: -10 });
}

#[test]
fn player_input_prefers_the_key_towards_the_origin() {
    assert_eq!(steered(true, true, false, false), Velocity { dx: 0, dy: -10 });
    assert_eq!(steered(false, false, true, true), Velocity { dx: -10, dy: 0 });
    assert_eq!(steered(true, true, true, true), Velocity { dx: -10, dy: -10 });
}

#[test]
fn player_input_replaces_the_velocity_of_the_tick_before() {
    let mut ecs = ECS::new();
    let player = Player::new(&mut ecs);
    player.input(&mut ecs, true, false, true, false);
    player.input(&mut ecs, false, false, false, false);
    assert_eq!(ecs.get_velocity(player.get_id()), Some(&Velocity { dx: 0, dy: 0 }));
}

#[test]
fn player_without_velocity_is_not_steered() {
    let mut home = ECS::new();
    let player = Player::new(&mut home);
    let mut other = ECS::new();
    other.add_position(player.get_id(), 1, 1);
    assert!(!player.input(&mut other, true, false, false, true));
    assert_eq!(other.get_velocity(player.get_id()), None);
    assert_eq!(other.get_position(player.get_id()), Some(&Position { x: 1, y: 1 }));
}

#[test]
fn player_moves_with_the_keys() {
    let mut ecs = ECS::new();
    let player = Player::new(&mut ecs);
    player.input(&mut ecs, false, true, false, true);
    movement_system(&mut ecs);
    assert_eq!(ecs.get_position(player.get_id()), Some(&Position { x: 50, y: 50 }));
}

#[test]
fn position_advances_by_a_velocity() {
    let mut p = Position { x: 10, y: 20 };
    p.advance(Velocity { dx: 1, dy: -2 });
    assert_eq!(p, Position { x: 11, y: 18 });
    let mut far = Position { x: i32::MIN, y: i32::MAX };
    far.advance(Velocity { dx: -1, dy: 1 });
    assert_eq!(far, Position { x: i32::MIN, y: i32::MAX });
    far.advance(Velocity { dx: i32::MAX, dy: i32::MIN });
    assert_eq!(far, Position { x: -1, y: -1 });
}
