use dino_game::ecs::{Component, ComponentKind, ECS};

const POS: ComponentKind = 1;
const LOG: ComponentKind = 2;
const LOGGER: ComponentKind = 3;
const WRITER: ComponentKind = 4;
const SPAWNER: ComponentKind = 5;

#[derive(Debug, PartialEq)]
enum Comp {
    Pos(i32),
    Log(Vec<usize>),
    Logger,
    Writer(i32),
    Spawner,
}

impl Component for Comp {
    fn update(&mut self, ecs: &mut ECS<Comp>, entity_id: usize, _dt: u64) {
        match self {
            Comp::Logger => {
                if let Some(Comp::Log(v)) = ecs.borrow_component(LOG, 0) {
                    v.push(entity_id);
                }
            }
            Comp::Spawner => {
                ecs.add_component_to_entity(LOGGER, entity_id + 1, Comp::Logger);
            }
            Comp::Writer(x) => {
                ecs.set_component(POS, entity_id, Comp::Pos(*x));
            }
            _ => {}
        }
    }
}

#[test]
fn new_registry_is_empty() {
    let ecs: ECS<Comp> = ECS::new();
    assert_eq!(ecs.get_component(POS, 0), None);
    assert!(ecs.borrow_component_vec(POS).is_none());
}

#[test]
fn entity_ids_are_sequential() {
    let mut ecs: ECS<Comp> = ECS::new();
    assert_eq!(ecs.new_entity(), 0);
    assert_eq!(ecs.new_entity(), 1);
    assert_eq!(ecs.new_entity(), 2);
}

#[test]
fn containers_track_entity_count() {
    let mut ecs: ECS<Comp> = ECS::new();
    let a = ecs.new_entity();
    ecs.add_component_to_entity(POS, a, Comp::Pos(1));
    assert_eq!(ecs.borrow_component_vec(POS).unwrap().len(), 1);
    ecs.new_entity();
    assert_eq!(ecs.borrow_component_vec(POS).unwrap().len(), 2);
    let c = ecs.new_entity();
    ecs.add_component_to_entity(LOGGER, c, Comp::Logger);
    assert_eq!(ecs.borrow_component_vec(LOGGER).unwrap().len(), 3);
    ecs.new_entity();
    assert_eq!(ecs.borrow_component_vec(POS).unwrap().len(), 4);
    assert_eq!(ecs.borrow_component_vec(LOGGER).unwrap().len(), 4);
    let logger = ecs.borrow_component_vec(LOGGER).unwrap();
    assert_eq!(logger[0], None);
    assert_eq!(logger[2], Some(Comp::Logger));
    assert_eq!(logger[3], None);
}

#[test]
fn attach_then_fetch() {
    let mut ecs: ECS<Comp> = ECS::new();
    let a = ecs.new_entity();
    let b = ecs.new_entity();
    assert_eq!(ecs.get_component(POS, b), None);
    ecs.add_component_to_entity(POS, b, Comp::Pos(7));
    assert_eq!(ecs.get_component(POS, b), Some(&Comp::Pos(7)));
    assert_eq!(ecs.get_component(POS, a), None);
}

#[test]
fn overwrite_keeps_only_the_last_value() {
    let mut ecs: ECS<Comp> = ECS::new();
    let a = ecs.new_entity();
    ecs.add_component_to_entity(POS, a, Comp::Pos(1));
    ecs.add_component_to_entity(POS, a, Comp::Pos(2));
    assert_eq!(ecs.get_component(POS, a), Some(&Comp::Pos(2)));
    assert_eq!(ecs.borrow_component_vec(POS).unwrap().len(), 1);
    ecs.set_component(POS, a, Comp::Pos(3));
    assert_eq!(ecs.get_component(POS, a), Some(&Comp::Pos(3)));
}

#[test]
fn absent_kind_or_entity_gives_nothing() {
    let mut ecs: ECS<Comp> = ECS::new();
    let a = ecs.new_entity();
    ecs.add_component_to_entity(POS, a, Comp::Pos(1));
    assert_eq!(ecs.get_component(LOG, a), None);
    assert_eq!(ecs.get_component(POS, 1), None);
    assert_eq!(ecs.get_component(POS, usize::MAX), None);
    assert!(ecs.borrow_component(POS, 5).is_none());
    assert!(ecs.borrow_component(LOG, a).is_none());
}

#[test]
fn borrow_component_writes_through() {
    let mut ecs: ECS<Comp> = ECS::new();
    let a = ecs.new_entity();
    ecs.add_component_to_entity(POS, a, Comp::Pos(1));
    if let Some(c) = ecs.borrow_component(POS, a) {
        *c = Comp::Pos(10);
    }
    assert_eq!(ecs.get_component(POS, a), Some(&Comp::Pos(10)));
}

#[test]
fn update_visits_entities_in_ascending_order() {
    let mut ecs: ECS<Comp> = ECS::new();
    let log = ecs.new_entity();
    let e1 = ecs.new_entity();
    let e2 = ecs.new_entity();
    ecs.new_entity();
    ecs.add_component_to_entity(LOG, log, Comp::Log(Vec::new()));
    ecs.add_component_to_entity(LOGGER, e2, Comp::Logger);
    ecs.add_component_to_entity(LOGGER, e1, Comp::Logger);
    ecs.update_all(16_667);
    assert_eq!(ecs.get_component(LOG, log), Some(&Comp::Log(vec![e1, e2])));
    ecs.update_all(16_667);
    assert_eq!(ecs.get_component(LOG, log), Some(&Comp::Log(vec![e1, e2, e1, e2])));
}

#[test]
fn update_keeps_components_in_place() {
    let mut ecs: ECS<Comp> = ECS::new();
    let a = ecs.new_entity();
    let b = ecs.new_entity();
    ecs.add_component_to_entity(WRITER, b, Comp::Writer(5));
    ecs.add_component_to_entity(POS, a, Comp::Pos(1));
    ecs.update_all(1);
    assert_eq!(ecs.get_component(WRITER, b), Some(&Comp::Writer(5)));
    assert_eq!(ecs.get_component(POS, b), Some(&Comp::Pos(5)));
    assert_eq!(ecs.get_component(POS, a), Some(&Comp::Pos(1)));
}

#[test]
fn slot_filled_earlier_in_the_pass_is_visited() {
    let mut ecs: ECS<Comp> = ECS::new();
    let log = ecs.new_entity();
    let spawner = ecs.new_entity();
    let filled = ecs.new_entity();
    let last = ecs.new_entity();
    ecs.add_component_to_entity(LOG, log, Comp::Log(Vec::new()));
    ecs.add_component_to_entity(SPAWNER, spawner, Comp::Spawner);
    ecs.add_component_to_entity(LOGGER, last, Comp::Logger);
    ecs.update_all(1);
    assert_eq!(ecs.get_component(LOGGER, filled), Some(&Comp::Logger));
    assert_eq!(ecs.get_component(LOG, log), Some(&Comp::Log(vec![filled, last])));
}
