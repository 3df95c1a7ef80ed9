use dino_game::ecs::animation::{AnimError, AnimStateMachine, Animation, AssetTag, Assets, Clip};

const RUN: AssetTag = AssetTag(1);
const JUMP: AssetTag = AssetTag(2);
const DINO: AssetTag = AssetTag(10);

#[derive(Clone, Copy, Debug, PartialEq)]
enum Motion {
    Running,
    Jumping,
    Ducking,
}

fn assets() -> Assets<Motion> {
    let mut a = Assets::new();
    a.add_clip(Clip { tag: RUN, len: 4, fps: 10 });
    a.add_clip(Clip { tag: JUMP, len: 2, fps: 5 });
    a.bind(DINO, Motion::Running, RUN);
    a.bind(DINO, Motion::Jumping, JUMP);
    a
}

#[test]
fn asset_lookups() {
    let a = assets();
    assert_eq!(a.get_anim_length(JUMP), Some(2));
    assert_eq!(a.get_anim_fps(RUN), Some(10));
    assert_eq!(a.get_anim_length(AssetTag(99)), None);
    assert_eq!(a.get_state_machine_anim(DINO, Motion::Jumping), Some(JUMP));
    assert_eq!(a.get_state_machine_anim(DINO, Motion::Ducking), None);
    assert_eq!(a.get_state_machine_anim(RUN, Motion::Running), None);
}

#[test]
fn new_animation_starts_on_first_frame() {
    let a = assets();
    let anim = Animation::new(&a, RUN, 10).unwrap();
    assert_eq!(anim.current_frame, 0);
    assert_eq!(anim.len, 4);
    assert_eq!(anim.frame_time, 100_000);
    assert_eq!(anim.next_frame_upd, 100_000);
    assert_eq!(Animation::new(&a, AssetTag(99), 10), Err(AnimError::AssetNotFound));
    assert_eq!(Animation::new(&a, RUN, 0), Err(AnimError::InvalidClip));
}

#[test]
fn empty_clip_is_rejected() {
    let mut a = assets();
    a.add_clip(Clip { tag: AssetTag(3), len: 0, fps: 10 });
    assert_eq!(Animation::new(&a, AssetTag(3), 10), Err(AnimError::InvalidClip));
}

#[test]
fn frames_advance_once_per_frame_time_and_wrap() {
    let a = assets();
    let mut anim = Animation::new(&a, RUN, 10).unwrap();
    let mut frames = Vec::new();
    let mut t: u64 = 0;
    while t <= 450_000 {
        anim.update(t);
        frames.push(anim.current_frame);
        t += 50_000;
    }
    // times 0, 0.05, 0.10, ..., 0.45 seconds
    assert_eq!(frames, vec![0, 0, 1, 1, 2, 2, 3, 3, 0, 0]);
}

#[test]
fn frame_schedule_follows_update_time() {
    let a = assets();
    let mut anim = Animation::new(&a, JUMP, 5).unwrap();
    anim.update(1_000_000);
    assert_eq!(anim.current_frame, 1);
    assert_eq!(anim.next_frame_upd, 1_200_000);
    anim.update(1_199_999);
    assert_eq!(anim.current_frame, 1);
    anim.update(1_200_000);
    assert_eq!(anim.current_frame, 0);
    anim.update(u64::MAX);
    assert_eq!(anim.next_frame_upd, u64::MAX);
}

#[test]
fn state_machine_starts_on_bound_clip() {
    let a = assets();
    let m = AnimStateMachine::new(&a, DINO, Motion::Running).unwrap();
    assert_eq!(m.current_anim_tag, RUN);
    assert_eq!(m.current_anim, Animation::new(&a, RUN, 10).unwrap());
    assert!(AnimStateMachine::new(&a, DINO, Motion::Ducking).is_err());
}

#[test]
fn state_change_swaps_animation() {
    let a = assets();
    let mut m = AnimStateMachine::new(&a, DINO, Motion::Running).unwrap();
    m.current_anim.update(0);
    m.current_anim.update(100_000);
    assert_eq!(m.current_anim.current_frame, 1);
    let r = m.update(&a, Some(Motion::Jumping)).unwrap().unwrap();
    assert_eq!(m.current_state, Motion::Jumping);
    assert_eq!(m.current_anim_tag, JUMP);
    assert_eq!(m.current_anim.current_frame, 0);
    assert_eq!(r, m.current_anim);
    assert_eq!(r.asset_tag, JUMP);
    assert_eq!(r.fps, 5);
}

#[test]
fn unchanged_or_missing_state_replaces_nothing() {
    let a = assets();
    let mut m = AnimStateMachine::new(&a, DINO, Motion::Running).unwrap();
    let before = m;
    assert_eq!(m.update(&a, Some(Motion::Running)), Ok(None));
    assert_eq!(m.current_anim, before.current_anim);
    assert_eq!(m.current_state, before.current_state);
    assert_eq!(m.update(&a, None), Ok(None));
    assert_eq!(m.current_anim, before.current_anim);
    assert_eq!(m.current_anim_tag, before.current_anim_tag);
}

#[test]
fn unbound_state_is_an_error_and_changes_nothing() {
    let a = assets();
    let mut m = AnimStateMachine::new(&a, DINO, Motion::Running).unwrap();
    assert_eq!(m.update(&a, Some(Motion::Ducking)), Err(AnimError::AssetNotFound));
    assert_eq!(m.current_state, Motion::Running);
    assert_eq!(m.current_anim_tag, RUN);
}

use dino_game::ecs::{Component, ComponentKind, ECS};

const ANIM: ComponentKind = 7;
const MOTION: ComponentKind = 8;

#[derive(Debug, PartialEq)]
enum Slot {
    Anim(Animation),
    State(Motion),
}

impl From<Animation> for Slot {
    fn from(a: Animation) -> Slot {
        Slot::Anim(a)
    }
}

impl Component for Slot {
    fn update(&mut self, _ecs: &mut ECS<Slot>, _entity_id: usize, _dt: u64) {}
}

fn driving_state(ecs: &ECS<Slot>, e: usize) -> Option<Motion> {
    match ecs.get_component(MOTION, e) {
        Some(Slot::State(m)) => Some(*m),
        _ => None,
    }
}

#[test]
fn drive_writes_fresh_animation_into_registry() {
    let a = assets();
    let mut ecs: ECS<Slot> = ECS::new();
    let e = ecs.new_entity();
    let mut m = AnimStateMachine::new(&a, DINO, Motion::Running).unwrap();
    ecs.add_component_to_entity(ANIM, e, Slot::Anim(m.current_anim));
    ecs.add_component_to_entity(MOTION, e, Slot::State(Motion::Running));

    let d = driving_state(&ecs, e);
    assert_eq!(m.drive(&mut ecs, &a, e, ANIM, d), Ok(None));
    assert_eq!(ecs.get_component(ANIM, e), Some(&Slot::Anim(Animation::new(&a, RUN, 10).unwrap())));

    ecs.set_component(MOTION, e, Slot::State(Motion::Jumping));
    let d = driving_state(&ecs, e);
    let fresh = m.drive(&mut ecs, &a, e, ANIM, d).unwrap().unwrap();
    assert_eq!(fresh, Animation::new(&a, JUMP, 5).unwrap());
    assert_eq!(ecs.get_component(ANIM, e), Some(&Slot::Anim(fresh)));
    assert_eq!(m.current_anim_tag, JUMP);
}

#[test]
fn drive_without_driving_state_changes_nothing() {
    let a = assets();
    let mut ecs: ECS<Slot> = ECS::new();
    let e = ecs.new_entity();
    let mut m = AnimStateMachine::new(&a, DINO, Motion::Running).unwrap();
    let d = driving_state(&ecs, e);
    assert_eq!(m.drive(&mut ecs, &a, e, ANIM, d), Ok(None));
    assert_eq!(ecs.get_component(ANIM, e), None);
    assert_eq!(m.current_state, Motion::Running);
}
