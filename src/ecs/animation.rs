use vstd::laws_eq::obeys_concrete_eq;
use vstd::prelude::*;
use vstd::std_specs::convert::FromSpec;

use super::{ComponentKind, ECS};

verus! {

/// Microseconds in one second: the library's clock counts microseconds.
pub const MICROS_PER_SECOND: u64 = 1000000;

/// Names an asset: an animation clip, or a state machine's table of clips.
#[derive(Clone, Copy, Debug, PartialEq, Eq, Structural)]
pub struct AssetTag(pub u32);

/// Why an animation could not be built from the assets.
#[derive(Clone, Copy, Debug, PartialEq, Eq, Structural)]
pub enum AnimError {
    /// No clip, or no clip bound to the requested state, under the tag.
    AssetNotFound,
    /// The clip has no frames, or a rate of zero frames per second.
    InvalidClip,
}

/// What the assets know of one clip: its frame count and playback rate.
#[derive(Clone, Copy, Debug, PartialEq, Eq, Structural)]
pub struct Clip {
    pub tag: AssetTag,
    pub len: usize,
    pub fps: u8,
}

/// Binds, in the state machine `machine`, the state `state` to the clip `anim`.
#[derive(Debug)]
pub struct Binding<State> {
    pub machine: AssetTag,
    pub state: State,
    pub anim: AssetTag,
}

/// The first clip of `clips` with tag `tag`.
pub open spec fn find_clip(clips: Seq<Clip>, tag: AssetTag) -> Option<Clip>
    decreases clips.len(),
{
    if clips.len() == 0 {
        None
    } else if clips[0].tag == tag {
        Some(clips[0])
    } else {
        find_clip(clips.drop_first(), tag)
    }
}

/// The clip of the first binding of `bindings` for `state` in `machine`.
pub open spec fn find_binding<State>(
    bindings: Seq<Binding<State>>,
    machine: AssetTag,
    state: State,
) -> Option<AssetTag>
    decreases bindings.len(),
{
    if bindings.len() == 0 {
        None
    } else if bindings[0].machine == machine && bindings[0].state == state {
        Some(bindings[0].anim)
    } else {
        find_binding(bindings.drop_first(), machine, state)
    }
}

/// A read-only table of clips and of state-machine bindings. Lookups find
/// the first entry registered under a key.
pub struct Assets<State> {
    clips: Vec<Clip>,
    bindings: Vec<Binding<State>>,
}

impl<State: Copy + PartialEq> Assets<State> {
    pub closed spec fn clips(&self) -> Seq<Clip> {
        self.clips@
    }

    pub closed spec fn bindings(&self) -> Seq<Binding<State>> {
        self.bindings@
    }

    pub fn new() -> (r: Self)
        ensures
            r.clips() == Seq::<Clip>::empty(),
            r.bindings() == Seq::<Binding<State>>::empty(),
    {
        Assets { clips: Vec::new(), bindings: Vec::new() }
    }

    pub fn add_clip(&mut self, clip: Clip)
        ensures
            final(self).clips() == old(self).clips().push(clip),
            final(self).bindings() == old(self).bindings(),
    {
        self.clips.push(clip);
    }

    pub fn bind(&mut self, machine: AssetTag, state: State, anim: AssetTag)
        ensures
            final(self).clips() == old(self).clips(),
            final(self).bindings() == old(self).bindings().push(
                Binding { machine, state, anim },
            ),
    {
        self.bindings.push(Binding { machine, state, anim });
    }

    /// The clip registered under `tag`.
    pub fn get_clip(&self, tag: AssetTag) -> (r: Option<Clip>)
        ensures
            r == find_clip(self.clips(), tag),
    {
        let mut i: usize = 0;
        assert(self.clips@.subrange(0, self.clips@.len() as int) =~= self.clips@);
        while i < self.clips.len()
            invariant
                i <= self.clips@.len(),
                find_clip(self.clips@, tag) == find_clip(self.clips@.subrange(i as int, self.clips@.len() as int), tag),
            decreases self.clips@.len() - i,
        {
            let ghost rest = self.clips@.subrange(i as int, self.clips@.len() as int);
            assert(rest.drop_first() =~= self.clips@.subrange(i + 1, self.clips@.len() as int));
            if self.clips[i].tag == tag {
                return Some(self.clips[i]);
            }
            i = i + 1;
        }
        None
    }

    /// Frame count of the clip `tag`.
    pub fn get_anim_length(&self, tag: AssetTag) -> (r: Option<usize>)
        ensures
            r == match find_clip(self.clips(), tag) {
                Some(c) => Some(c.len),
                None => None,
            },
    {
        match self.get_clip(tag) {
            Some(c) => Some(c.len),
            None => None,
        }
    }

    /// Playback rate of the clip `tag`.
    pub fn get_anim_fps(&self, tag: AssetTag) -> (r: Option<u8>)
        ensures
            r == match find_clip(self.clips(), tag) {
                Some(c) => Some(c.fps),
                None => None,
            },
    {
        match self.get_clip(tag) {
            Some(c) => Some(c.fps),
            None => None,
        }
    }

    /// The clip that the state machine `machine` plays in `state`.
    pub fn get_state_machine_anim(&self, machine: AssetTag, state: State) -> (r: Option<AssetTag>)
        requires
            obeys_concrete_eq::<State>(),
        ensures
            r == find_binding(self.bindings(), machine, state),
    {
        let mut i: usize = 0;
        assert(self.bindings@.subrange(0, self.bindings@.len() as int) =~= self.bindings@);
        while i < self.bindings.len()
            invariant
                obeys_concrete_eq::<State>(),
                i <= self.bindings@.len(),
                find_binding(self.bindings@, machine, state) == find_binding(
                    self.bindings@.subrange(i as int, self.bindings@.len() as int),
                    machine,
                    state,
                ),
            decreases self.bindings@.len() - i,
        {
            let ghost rest = self.bindings@.subrange(i as int, self.bindings@.len() as int);
            assert(rest.drop_first() =~= self.bindings@.subrange(i + 1, self.bindings@.len() as int));
            let b = &self.bindings[i];
            proof {
                reveal(obeys_concrete_eq);
            }
            if b.machine == machine && b.state == state {
                return Some(b.anim);
            }
            i = i + 1;
        }
        None
    }
}

/// A clip being played at a fixed rate, independent of the tick rate. Times
/// are microseconds of the simulation clock.
#[derive(Clone, Copy, Debug, PartialEq, Eq, Structural)]
pub struct Animation {
    pub asset_tag: AssetTag,
    pub fps: u8,
    pub len: usize,
    pub current_frame: usize,
    /// Time between two frames: one second over `fps`.
    pub frame_time: u64,
    /// The clock value from which on the next `update` advances a frame.
    pub next_frame_upd: u64,
}

/// The animation of the clip `tag`, with `len` frames at `fps`, on its first
/// frame. The first advance comes one frame time after the clock's start.
pub open spec fn fresh_animation(tag: AssetTag, fps: u8, len: usize) -> Animation
    recommends
        fps > 0,
{
    Animation {
        asset_tag: tag,
        fps,
        len,
        current_frame: 0,
        frame_time: (MICROS_PER_SECOND / fps as u64) as u64,
        next_frame_upd: (MICROS_PER_SECOND / fps as u64) as u64,
    }
}

/// What `animation_of` returns for the clip `tag` played at `fps`.
pub open spec fn animation_of(assets: Seq<Clip>, tag: AssetTag, fps: u8) -> Result<Animation, AnimError> {
    match find_clip(assets, tag) {
        None => Err(AnimError::AssetNotFound),
        Some(c) => if c.len == 0 || fps == 0 {
            Err(AnimError::InvalidClip)
        } else {
            Ok(fresh_animation(tag, fps, c.len))
        },
    }
}

/// What `update` makes of `a` when the clock reads `time`.
pub open spec fn animation_at(a: Animation, time: u64) -> Animation {
    if time < a.next_frame_upd {
        a
    } else {
        Animation {
            current_frame: ((a.current_frame + 1) % (a.len as int)) as usize,
            next_frame_upd: if time + a.frame_time <= u64::MAX {
                (time + a.frame_time) as u64
            } else {
                u64::MAX
            },
            ..a
        }
    }
}

/// After an advance at `t`, no update at a time `t2` less than one frame
/// time later advances again, and an update at `t2` one frame time later or
/// more does, wrapping after the last frame. The clock's end, where the next
/// advance time would not fit, is left out.
pub proof fn lemma_frame_spacing(a: Animation, t: u64, t2: u64)
    requires
        a.wf(),
        t >= a.next_frame_upd,
        t + a.frame_time <= u64::MAX,
    ensures
        animation_at(a, t).current_frame == (a.current_frame + 1) % (a.len as int),
        t2 < t + a.frame_time ==> animation_at(animation_at(a, t), t2) == animation_at(a, t),
        t2 >= t + a.frame_time ==> animation_at(animation_at(a, t), t2).current_frame
            == (animation_at(a, t).current_frame + 1) % (a.len as int),
{
}

impl Animation {
    /// The frame counter stays within the clip, and the frame time matches
    /// the rate.
    pub open spec fn wf(&self) -> bool {
        &&& self.fps > 0
        &&& self.len > 0
        &&& self.current_frame < self.len
        &&& self.frame_time == MICROS_PER_SECOND / self.fps as u64
    }

    /// The animation of the clip `asset_tag` at `fps`, on its first frame.
    pub fn new<State: Copy + PartialEq>(assets: &Assets<State>, asset_tag: AssetTag, fps: u8) -> (r: Result<Animation, AnimError>)
        ensures
            r == animation_of(assets.clips(), asset_tag, fps),
            r.is_ok() ==> r.unwrap().wf(),
    {
        match assets.get_anim_length(asset_tag) {
            None => Err(AnimError::AssetNotFound),
            Some(len) => {
                if len == 0 || fps == 0 {
                    Err(AnimError::InvalidClip)
                } else {
                    let frame_time = MICROS_PER_SECOND / fps as u64;
                    Ok(Animation {
                        asset_tag,
                        fps,
                        len,
                        current_frame: 0,
                        frame_time,
                        next_frame_upd: frame_time,
                    })
                }
            },
        }
    }

    /// Advances one frame, wrapping to the first, once the clock `time` has
    /// reached `next_frame_upd`, and schedules the next advance one frame time
    /// after `time`; before that, does nothing.
    pub fn update(&mut self, time: u64)
        requires
            old(self).wf(),
        ensures
            final(self).wf(),
            *final(self) == animation_at(*old(self), time),
    {
        if time < self.next_frame_upd {
            return;
        }
        self.current_frame = (self.current_frame + 1) % self.len;
        self.next_frame_upd = time.saturating_add(self.frame_time);
    }
}

/// Plays, for an entity, the clip that its driving state calls for, as the
/// asset table of `asset_tag` binds states to clips.
#[derive(Clone, Copy, Debug)]
pub struct AnimStateMachine<State> {
    pub asset_tag: AssetTag,
    pub current_state: State,
    pub current_anim_tag: AssetTag,
    pub current_anim: Animation,
}

/// The clip and fresh animation that the machine `machine` plays in `state`.
pub open spec fn state_animation<State>(assets: &Assets<State>, machine: AssetTag, state: State) -> Result<(AssetTag, Animation), AnimError>
    where State: Copy + PartialEq
{
    match find_binding(assets.bindings(), machine, state) {
        None => Err(AnimError::AssetNotFound),
        Some(tag) => match find_clip(assets.clips(), tag) {
            None => Err(AnimError::AssetNotFound),
            Some(c) => match animation_of(assets.clips(), tag, c.fps) {
                Err(e) => Err(e),
                Ok(a) => Ok((tag, a)),
            },
        },
    }
}

/// `new` and `r` are what `update` makes of `old` and returns, given the
/// driving state `driving`.
pub open spec fn stepped<State>(
    old: AnimStateMachine<State>,
    new: AnimStateMachine<State>,
    assets: &Assets<State>,
    driving: Option<State>,
    r: Result<Option<Animation>, AnimError>,
) -> bool
    where State: Copy + PartialEq
{
    match driving {
        None => r == Ok::<Option<Animation>, AnimError>(None) && new == old,
        Some(s) => if s == old.current_state {
            r == Ok::<Option<Animation>, AnimError>(None) && new == old
        } else {
            match state_animation(assets, old.asset_tag, s) {
                Err(e) => r == Err::<Option<Animation>, AnimError>(e) && new == old,
                Ok((tag, anim)) => r == Ok::<Option<Animation>, AnimError>(Some(anim))
                    && new == (AnimStateMachine {
                        asset_tag: old.asset_tag,
                        current_state: s,
                        current_anim_tag: tag,
                        current_anim: anim,
                    }),
            }
        },
    }
}

/// A change of the driving state moves the machine to the clip bound to the
/// new state, on a fresh animation at its first frame, which is handed back
/// to replace the entity's animation. An unchanged or absent driving state
/// replaces nothing and leaves the machine as it was.
pub proof fn lemma_state_transition<State: Copy + PartialEq>(
    old: AnimStateMachine<State>,
    new: AnimStateMachine<State>,
    assets: &Assets<State>,
    driving: Option<State>,
    r: Result<Option<Animation>, AnimError>,
)
    requires
        stepped(old, new, assets, driving, r),
    ensures
        driving.is_none() || driving == Some(old.current_state) ==> r == Ok::<
            Option<Animation>,
            AnimError,
        >(None) && new == old,
        driving.is_some() && driving != Some(old.current_state) && r.is_ok() ==> {
            &&& new.current_state == driving.unwrap()
            &&& new.current_anim_tag == find_binding(assets.bindings(), old.asset_tag, driving.unwrap()).unwrap()
            &&& new.current_anim.current_frame == 0
            &&& new.current_anim.asset_tag == new.current_anim_tag
            &&& r == Ok::<Option<Animation>, AnimError>(Some(new.current_anim))
        },
{
}

impl<State: Copy + PartialEq> AnimStateMachine<State> {
    /// Looks up the clip and animation for `state`.
    fn lookup(assets: &Assets<State>, machine: AssetTag, state: State) -> (r: Result<(AssetTag, Animation), AnimError>)
        requires
            obeys_concrete_eq::<State>(),
        ensures
            r == state_animation(assets, machine, state),
            r.is_ok() ==> r.unwrap().1.wf(),
    {
        let anim_tag = match assets.get_state_machine_anim(machine, state) {
            Some(t) => t,
            None => return Err(AnimError::AssetNotFound),
        };
        let fps = match assets.get_anim_fps(anim_tag) {
            Some(f) => f,
            None => return Err(AnimError::AssetNotFound),
        };
        match Animation::new(assets, anim_tag, fps) {
            Ok(a) => Ok((anim_tag, a)),
            Err(e) => Err(e),
        }
    }

    /// The machine `asset_tag`, in `start_state`, playing that state's clip.
    pub fn new(assets: &Assets<State>, asset_tag: AssetTag, start_state: State) -> (r: Result<Self, AnimError>)
        requires
            obeys_concrete_eq::<State>(),
        ensures
            match state_animation(assets, asset_tag, start_state) {
                Err(e) => r == Err::<Self, AnimError>(e),
                Ok((tag, anim)) => r == Ok::<Self, AnimError>(AnimStateMachine {
                    asset_tag,
                    current_state: start_state,
                    current_anim_tag: tag,
                    current_anim: anim,
                }),
            },
            r.is_ok() ==> r.unwrap().current_anim.wf(),
    {
        match Self::lookup(assets, asset_tag, start_state) {
            Ok((tag, anim)) => Ok(AnimStateMachine {
                asset_tag,
                current_state: start_state,
                current_anim_tag: tag,
                current_anim: anim,
            }),
            Err(e) => Err(e),
        }
    }

    /// Observes the driving state of this tick, `None` where the entity has
    /// none. When it differs from the current state, the machine moves to it,
    /// restarts on the clip bound to it, and returns that fresh animation, to
    /// be stored as the entity's animation. Otherwise nothing changes and
    /// nothing is returned. A failed lookup changes nothing.
    pub fn update(&mut self, assets: &Assets<State>, driving: Option<State>) -> (r: Result<Option<Animation>, AnimError>)
        requires
            obeys_concrete_eq::<State>(),
        ensures
            stepped(*old(self), *final(self), assets, driving, r),
    {
        let new_state = match driving {
            Some(s) => s,
            None => return Ok(None),
        };
        proof {
            reveal(obeys_concrete_eq);
        }
        if self.current_state == new_state {
            return Ok(None);
        }
        match Self::lookup(assets, self.asset_tag, new_state) {
            Ok((tag, anim)) => {
                self.current_state = new_state;
                self.current_anim_tag = tag;
                self.current_anim = anim;
                Ok(Some(anim))
            },
            Err(e) => Err(e),
        }
    }

    /// One tick of the machine on the registry: observes `driving`, the
    /// entity's driving state as read from `ecs` (`None` where it has none),
    /// exactly as `update` does, and stores a fresh animation that `update`
    /// hands back as the entity's kind-`anim_kind` component. Nothing else in
    /// `ecs` changes, and nothing at all where no animation is handed back.
    pub fn drive<C: From<Animation>>(
        &mut self,
        ecs: &mut ECS<C>,
        assets: &Assets<State>,
        entity_id: usize,
        anim_kind: ComponentKind,
        driving: Option<State>,
    ) -> (r: Result<Option<Animation>, AnimError>)
        requires
            obeys_concrete_eq::<State>(),
            C::obeys_from_spec(),
            old(ecs).wf(),
            entity_id < old(ecs).count(),
        ensures
            stepped(*old(self), *final(self), assets, driving, r),
            match r {
                Ok(Some(a)) => final(ecs).attached(old(ecs), anim_kind, entity_id as int, C::from_spec(a)),
                _ => *final(ecs) == *old(ecs),
            },
    {
        let r = self.update(assets, driving);
        match r {
            Ok(Some(a)) => {
                ecs.set_component(anim_kind, entity_id, C::from(a));
            },
            _ => {},
        }
        r
    }
}

} // verus!
