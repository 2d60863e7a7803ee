//! The simulation world: entities, input handling and the physics step.

use vstd::prelude::*;

use crate::geom::Color;
use crate::geom::Rect;
use crate::geom::Vec2;
use crate::num::damp;
use crate::num::damp_spec;
use crate::num::isqrt;
use crate::num::isqrt_spec;
use crate::num::lemma_damp_shrinks;
use crate::num::lemma_isqrt_bounds;
use crate::num::lemma_sq_le;
use crate::num::lemma_tdiv_bound;
use crate::num::tdiv;
use crate::num::tdiv_spec;
use crate::DEFAULT_SPAWN;
use crate::IMPULSE_GAIN;
use crate::MAX_PRE_CLAMP;
use crate::MAX_SPAWN;
use crate::MOMENTUM_CAP;
use crate::WORLD_MAX_X;
use crate::WORLD_MAX_Y;

verus! {

/// A pointer button the world reacts to.
#[derive(Clone, Copy, PartialEq, Eq, Structural, Debug)]
pub enum Button {
    Primary,
    Secondary,
}

/// A directional key; everything unrecognized maps to `Other`.
#[derive(Clone, Copy, PartialEq, Eq, Structural, Debug)]
pub enum Key {
    Up,
    Left,
    Down,
    Right,
    Other,
}

/// One input event of a frame's batch.
#[derive(Clone, Copy, PartialEq, Eq, Structural, Debug)]
pub enum Event {
    PointerButton { button: Button, pressed: bool, pos: Vec2 },
    Key { key: Key, pressed: bool },
}

/// A simulated rectangle.
#[derive(Clone, Copy, PartialEq, Eq, Structural, Debug)]
pub struct Entity {
    pub bounds: Rect,
    pub color: Color,
    pub momentum: Vec2,
    pub is_controlled: bool,
}

/// What an entity is drawn as.
#[derive(Clone, Copy, PartialEq, Eq, Structural, Debug)]
pub struct DrawRect {
    pub bounds: Rect,
    pub color: Color,
}

/// The whole simulation state.
pub struct World {
    /// All entities, in creation order; the sequence only grows.
    pub entities: Vec<Entity>,
    /// Index of the controlled entity, if any.
    pub controlled_index: Option<usize>,
    /// Size given to every newly spawned entity.
    pub spawn_size: Vec2,
}

/// Momentum stays within the hard cap on each component.
pub open spec fn momentum_ok(e: Entity) -> bool {
    &&& -MOMENTUM_CAP <= e.momentum.x <= MOMENTUM_CAP
    &&& -MOMENTUM_CAP <= e.momentum.y <= MOMENTUM_CAP
}

/// The entity a primary click at `pos` creates.
pub open spec fn spawned_entity(pos: Vec2, spawn: Vec2) -> Entity {
    Entity {
        bounds: Rect::spec_from_min_size(pos, spawn),
        color: Color::spec_green(),
        momentum: Vec2 { x: 0, y: 0 },
        is_controlled: false,
    }
}

/// The same entity with its control flag set to `c`.
pub open spec fn with_control(e: Entity, c: bool) -> Entity {
    Entity { bounds: e.bounds, color: e.color, momentum: e.momentum, is_controlled: c }
}

/// The index of the first entity, in creation order starting at `i`,
/// whose bounds contain `pos`.
pub open spec fn first_hit_from(s: Seq<Entity>, pos: Vec2, i: int) -> Option<int>
    decreases s.len() - i,
{
    if i < 0 || i >= s.len() {
        None
    } else if s[i].bounds.spec_contains(pos.x as int, pos.y as int) {
        Some(i)
    } else {
        first_hit_from(s, pos, i + 1)
    }
}

/// The index of the first entity whose bounds contain `pos`.
pub open spec fn first_hit(s: Seq<Entity>, pos: Vec2) -> Option<int> {
    first_hit_from(s, pos, 0)
}

/// A hit index is in range, and the entity there contains the click.
pub proof fn lemma_first_hit_from_range(s: Seq<Entity>, pos: Vec2, k: int, i: int)
    requires
        first_hit_from(s, pos, k) == Some(i),
    ensures
        k <= i < s.len(),
        s[i].bounds.spec_contains(pos.x as int, pos.y as int),
    decreases s.len() - k,
{
    if 0 <= k < s.len() && !s[k].bounds.spec_contains(pos.x as int, pos.y as int) {
        lemma_first_hit_from_range(s, pos, k + 1, i);
    }
}

/// Momentum clamping: if the squared magnitude exceeds the cap's square,
/// both components are rescaled by `cap / length`, truncated toward zero.
pub open spec fn clamp_spec(mx: int, my: int) -> (int, int) {
    if mx * mx + my * my <= MOMENTUM_CAP * MOMENTUM_CAP {
        (mx, my)
    } else {
        let l = isqrt_spec((mx * mx + my * my) as nat) as int;
        (tdiv_spec(mx * MOMENTUM_CAP, l), tdiv_spec(my * MOMENTUM_CAP, l))
    }
}

/// The controlled entity after an impulse `(dx, dy)`: the impulse enters
/// with gain `IMPULSE_GAIN`, then the momentum is clamped.
pub open spec fn impulsed_entity(e: Entity, dx: int, dy: int) -> Entity {
    let m = clamp_spec(
        e.momentum.x + IMPULSE_GAIN * dx,
        e.momentum.y + IMPULSE_GAIN * dy,
    );
    Entity {
        bounds: e.bounds,
        color: e.color,
        momentum: Vec2 { x: m.0 as i64, y: m.1 as i64 },
        is_controlled: e.is_controlled,
    }
}

/// One physics step for a single entity: translate by the momentum, damp
/// the momentum, then negate a momentum component whose axis left the
/// world bounds.
pub open spec fn stepped_entity(e: Entity) -> Entity {
    let b = e.bounds.spec_translate(e.momentum);
    let dmx = damp_spec(e.momentum.x as int);
    let dmy = damp_spec(e.momentum.y as int);
    let mx = if b.min.x < 0 || b.max.x > WORLD_MAX_X {
        -dmx
    } else {
        dmx
    };
    let my = if b.min.y < 0 || b.max.y > WORLD_MAX_Y {
        -dmy
    } else {
        dmy
    };
    Entity {
        bounds: b,
        color: e.color,
        momentum: Vec2 { x: mx as i64, y: my as i64 },
        is_controlled: e.is_controlled,
    }
}

/// The direction a key maps to, before scaling by the spawn size.
pub open spec fn key_dir(k: Key) -> (int, int) {
    match k {
        Key::Up => (0, -1),
        Key::Left => (-1, 0),
        Key::Down => (0, 1),
        Key::Right => (1, 0),
        Key::Other => (0, 0),
    }
}

/// The world is unchanged.
pub open spec fn unchanged_world(pre: World, post: World) -> bool {
    &&& post.entities@ == pre.entities@
    &&& post.controlled_index == pre.controlled_index
    &&& post.spawn_size == pre.spawn_size
}

/// A primary click at `pos`: exactly one entity is appended.
pub open spec fn spawn_transition(pre: World, post: World, pos: Vec2) -> bool {
    &&& post.entities@ == pre.entities@.push(spawned_entity(pos, pre.spawn_size))
    &&& post.controlled_index == pre.controlled_index
    &&& post.spawn_size == pre.spawn_size
}

/// A secondary click at `pos`: control toggles off on the already
/// controlled entity, or moves to the first entity hit.
pub open spec fn control_transition(pre: World, post: World, pos: Vec2) -> bool {
    &&& post.spawn_size == pre.spawn_size
    &&& match first_hit(pre.entities@, pos) {
        None => {
            &&& post.entities@ == pre.entities@
            &&& post.controlled_index == pre.controlled_index
        },
        Some(i) => {
            if pre.controlled_index == Some(i as usize) {
                &&& post.controlled_index is None
                &&& post.entities@ == pre.entities@.update(
                    i,
                    with_control(pre.entities@[i], false),
                )
            } else {
                &&& post.controlled_index == Some(i as usize)
                &&& post.entities@ == (match pre.controlled_index {
                    Some(p) => pre.entities@.update(
                        p as int,
                        with_control(pre.entities@[p as int], false),
                    ),
                    None => pre.entities@,
                }).update(i, with_control(pre.entities@[i], true))
            }
        },
    }
}

/// An impulse `(dx, dy)` reaches the controlled entity, if any.
pub open spec fn impulse_transition(pre: World, post: World, dx: int, dy: int) -> bool {
    match pre.controlled_index {
        None => unchanged_world(pre, post),
        Some(i) => {
            &&& post.entities@ == pre.entities@.update(
                i as int,
                impulsed_entity(pre.entities@[i as int], dx, dy),
            )
            &&& post.controlled_index == pre.controlled_index
            &&& post.spawn_size == pre.spawn_size
        },
    }
}

/// A key event: only a press of a directional key while an entity is
/// controlled has an effect; the direction is scaled by the spawn size
/// before the impulse.
pub open spec fn key_transition(pre: World, post: World, key: Key, pressed: bool) -> bool {
    let d = key_dir(key);
    if pressed && pre.controlled_index is Some && !(d.0 == 0 && d.1 == 0) {
        impulse_transition(pre, post, d.0 * pre.spawn_size.x, d.1 * pre.spawn_size.y)
    } else {
        unchanged_world(pre, post)
    }
}

/// The physics step transforms every entity independently.
pub open spec fn step_transition(pre: World, post: World) -> bool {
    &&& post.entities@.len() == pre.entities@.len()
    &&& forall|j: int|
        0 <= j < pre.entities@.len() ==> (#[trigger] post.entities@[j]) == stepped_entity(
            pre.entities@[j],
        )
    &&& post.controlled_index == pre.controlled_index
    &&& post.spawn_size == pre.spawn_size
}

/// What one input event does to the world.
pub open spec fn event_transition(pre: World, post: World, e: Event) -> bool {
    match e {
        Event::PointerButton { button, pressed, pos } => {
            if pressed {
                match button {
                    Button::Primary => spawn_transition(pre, post, pos),
                    Button::Secondary => control_transition(pre, post, pos),
                }
            } else {
                unchanged_world(pre, post)
            }
        },
        Event::Key { key, pressed } => key_transition(pre, post, key, pressed),
    }
}

/// What a whole ordered batch of input events does to the world: each
/// event applies, in delivery order, to the state the previous one left.
pub open spec fn events_transition(pre: World, post: World, evs: Seq<Event>) -> bool
    decreases evs.len(),
{
    if evs.len() == 0 {
        unchanged_world(pre, post)
    } else {
        exists|mid: World|
            {
                &&& #[trigger] event_transition(pre, mid, evs[0])
                &&& mid.wf()
                &&& events_transition(mid, post, evs.drop_first())
            }
    }
}

/// A whole frame: the event batch applies in order, then one physics step.
pub open spec fn frame_transition(pre: World, post: World, evs: Seq<Event>) -> bool {
    exists|mid: World|
        {
            &&& #[trigger] events_transition(pre, mid, evs)
            &&& mid.wf()
            &&& step_transition(mid, post)
        }
}

/// The event transitions only read the world through its fields and the
/// entity sequence, so equal states transition alike.
proof fn lemma_event_transition_same_view(pre: World, mid: World, post: World, e: Event)
    requires
        unchanged_world(pre, mid),
        event_transition(mid, post, e),
    ensures
        event_transition(pre, post, e),
{
}

/// Appending one event to a batch composes the two transitions.
pub proof fn lemma_events_transition_snoc(
    pre: World,
    mid: World,
    post: World,
    evs: Seq<Event>,
    e: Event,
)
    requires
        events_transition(pre, mid, evs),
        mid.wf(),
        post.wf(),
        event_transition(mid, post, e),
    ensures
        events_transition(pre, post, evs.push(e)),
    decreases evs.len(),
{
    let evs2 = evs.push(e);
    if evs.len() == 0 {
        lemma_event_transition_same_view(pre, mid, post, e);
        assert(evs2.drop_first() =~= Seq::<Event>::empty());
        assert(events_transition(post, post, evs2.drop_first()));
        assert(event_transition(pre, post, evs2[0]) && post.wf() && events_transition(
            post,
            post,
            evs2.drop_first(),
        ));
    } else {
        let m0 = choose|m: World|
            #[trigger] event_transition(pre, m, evs[0]) && m.wf() && events_transition(
                m,
                mid,
                evs.drop_first(),
            );
        lemma_events_transition_snoc(m0, mid, post, evs.drop_first(), e);
        assert(evs2.drop_first() =~= evs.drop_first().push(e));
        assert(evs2[0] == evs[0]);
        assert(event_transition(pre, m0, evs2[0]) && m0.wf() && events_transition(
            m0,
            post,
            evs2.drop_first(),
        ));
    }
}

impl World {
    /// The state invariant: the controlled index is valid and agrees with
    /// the control flags, at most one entity is controlled, momenta are
    /// capped, and the spawn size is positive and bounded.
    pub open spec fn wf(self) -> bool {
        &&& match self.controlled_index {
            Some(i) => i < self.entities@.len() && self.entities@[i as int].is_controlled,
            None => true,
        }
        &&& forall|j: int|
            0 <= j < self.entities@.len() && (#[trigger] self.entities@[j]).is_controlled
                ==> (match self.controlled_index {
                    Some(c) => c as int == j,
                    None => false,
                })
        &&& forall|j: int|
            0 <= j < self.entities@.len() ==> momentum_ok(#[trigger] self.entities@[j])
        &&& 1 <= self.spawn_size.x <= MAX_SPAWN
        &&& 1 <= self.spawn_size.y <= MAX_SPAWN
    }

    /// A fresh world: no entities, nothing controlled, default spawn size.
    pub fn new() -> (w: World)
        ensures
            w.wf(),
            w.entities@ == Seq::<Entity>::empty(),
            w.controlled_index is None,
            w.spawn_size == (Vec2 { x: DEFAULT_SPAWN, y: DEFAULT_SPAWN }),
    {
        World {
            entities: Vec::new(),
            controlled_index: None,
            spawn_size: Vec2 { x: DEFAULT_SPAWN, y: DEFAULT_SPAWN },
        }
    }

    /// Appends a fresh entity with the given bounds: default color, zero
    /// momentum, not controlled.
    pub fn add_rectangle(&mut self, rect: Rect)
        requires
            old(self).wf(),
        ensures
            final(self).wf(),
            final(self).entities@ == old(self).entities@.push(
                Entity {
                    bounds: rect,
                    color: Color::spec_green(),
                    momentum: Vec2 { x: 0, y: 0 },
                    is_controlled: false,
                },
            ),
            final(self).controlled_index == old(self).controlled_index,
            final(self).spawn_size == old(self).spawn_size,
    {
        self.entities.push(
            Entity {
                bounds: rect,
                color: Color::green(),
                momentum: Vec2 { x: 0, y: 0 },
                is_controlled: false,
            },
        );
    }

    /// The first entity, in creation order, whose bounds contain `pos`.
    fn find_first_hit(&self, pos: Vec2) -> (r: Option<usize>)
        ensures
            match r {
                Some(i) => i < self.entities@.len() && first_hit(self.entities@, pos) == Some(
                    i as int,
                ),
                None => first_hit(self.entities@, pos) is None,
            },
    {
        let n = self.entities.len();
        let mut i: usize = 0;
        while i < n
            invariant
                0 <= i <= n,
                n == self.entities@.len(),
                first_hit(self.entities@, pos) == first_hit_from(self.entities@, pos, i as int),
            decreases n - i,
        {
            if self.entities[i].bounds.contains(pos) {
                return Some(i);
            }
            i = i + 1;
        }
        None
    }

    /// A pressed pointer button: primary spawns an entity at `pos`,
    /// secondary toggles or moves control to the first entity hit.
    pub fn handle_click(&mut self, pos: Vec2, button: Button)
        requires
            old(self).wf(),
        ensures
            final(self).wf(),
            match button {
                Button::Primary => spawn_transition(*old(self), *final(self), pos),
                Button::Secondary => control_transition(*old(self), *final(self), pos),
            },
    {
        match button {
            Button::Primary => {
                let rect = Rect::from_min_size(pos, self.spawn_size);
                self.add_rectangle(rect);
            },
            Button::Secondary => {
                let hit = self.find_first_hit(pos);
                if let Some(i) = hit {
                    let was = self.controlled_index;
                    match was {
                        Some(p) => {
                            if p == i {
                                let mut e = self.entities[i];
                                e.is_controlled = false;
                                self.entities[i] = e;
                                self.controlled_index = None;
                            } else {
                                let mut ep = self.entities[p];
                                ep.is_controlled = false;
                                self.entities[p] = ep;
                                let mut e = self.entities[i];
                                e.is_controlled = true;
                                self.entities[i] = e;
                                self.controlled_index = Some(i);
                            }
                        },
                        None => {
                            let mut e = self.entities[i];
                            e.is_controlled = true;
                            self.entities[i] = e;
                            self.controlled_index = Some(i);
                        },
                    }
                }
            },
        }
    }

    /// Adds `IMPULSE_GAIN` times the direction to the controlled entity's
    /// momentum and clamps the result; no effect when nothing is
    /// controlled.
    pub fn apply_impulse(&mut self, direction: Vec2)
        requires
            old(self).wf(),
            -MAX_SPAWN <= direction.x <= MAX_SPAWN,
            -MAX_SPAWN <= direction.y <= MAX_SPAWN,
        ensures
            final(self).wf(),
            impulse_transition(
                *old(self),
                *final(self),
                direction.x as int,
                direction.y as int,
            ),
    {
        if let Some(i) = self.controlled_index {
            let mut e = self.entities[i];
            let mx = e.momentum.x + IMPULSE_GAIN * direction.x;
            let my = e.momentum.y + IMPULSE_GAIN * direction.y;
            let m = clamp_momentum(mx, my);
            e.momentum = Vec2 { x: m.0, y: m.1 };
            self.entities[i] = e;
        }
    }

    /// A key event: a pressed directional key steers the controlled
    /// entity. The mapped directions are unit vectors, so the
    /// negligible-magnitude test on the direction reduces to the zero
    /// vector, which unrecognized keys map to.
    pub fn handle_key(&mut self, key: Key, pressed: bool)
        requires
            old(self).wf(),
        ensures
            final(self).wf(),
            key_transition(*old(self), *final(self), key, pressed),
    {
        if !pressed {
            return;
        }
        if self.controlled_index.is_none() {
            return;
        }
        let (dx, dy): (i64, i64) = match key {
            Key::Up => (0, -1),
            Key::Left => (-1, 0),
            Key::Down => (0, 1),
            Key::Right => (1, 0),
            Key::Other => (0, 0),
        };
        if dx == 0 && dy == 0 {
            return;
        }
        let d = Vec2 { x: dx * self.spawn_size.x, y: dy * self.spawn_size.y };
        self.apply_impulse(d);
    }

    /// Dispatches one input event; only presses have an effect.
    pub fn handle_event(&mut self, event: Event)
        requires
            old(self).wf(),
        ensures
            final(self).wf(),
            event_transition(*old(self), *final(self), event),
    {
        match event {
            Event::PointerButton { button, pressed, pos } => {
                if pressed {
                    self.handle_click(pos, button);
                }
            },
            Event::Key { key, pressed } => {
                self.handle_key(key, pressed);
            },
        }
    }

    /// One physics step over every entity: translate, damp, bounce. The
    /// momentum cap is enforced only right after an impulse, never here;
    /// the step itself only damps and negates, so it grows no component.
    /// Bounce reacts to the translated position, so bounds may sit
    /// outside the world for the frame in which they crossed an edge.
    pub fn step_physics(&mut self)
        requires
            old(self).wf(),
        ensures
            final(self).wf(),
            step_transition(*old(self), *final(self)),
    {
        let n = self.entities.len();
        let mut i: usize = 0;
        while i < n
            invariant
                0 <= i <= n,
                n == self.entities@.len(),
                n == old(self).entities@.len(),
                old(self).wf(),
                self.controlled_index == old(self).controlled_index,
                self.spawn_size == old(self).spawn_size,
                forall|j: int|
                    i <= j < n ==> (#[trigger] self.entities@[j]) == old(self).entities@[j],
                forall|j: int|
                    0 <= j < i ==> (#[trigger] self.entities@[j]) == stepped_entity(
                        old(self).entities@[j],
                    ),
            decreases n - i,
        {
            let e = self.entities[i];
            let b = e.bounds.translate(e.momentum);
            proof {
                lemma_damp_shrinks(e.momentum.x as int);
                lemma_damp_shrinks(e.momentum.y as int);
            }
            let dmx = damp(e.momentum.x);
            let dmy = damp(e.momentum.y);
            let mx = if b.min.x < 0 || b.max.x > WORLD_MAX_X {
                -dmx
            } else {
                dmx
            };
            let my = if b.min.y < 0 || b.max.y > WORLD_MAX_Y {
                -dmy
            } else {
                dmy
            };
            let stepped = Entity {
                bounds: b,
                color: e.color,
                momentum: Vec2 { x: mx, y: my },
                is_controlled: e.is_controlled,
            };
            self.entities[i] = stepped;
            i = i + 1;
        }
        proof {
            assert forall|j: int| 0 <= j < self.entities@.len() implies momentum_ok(
                #[trigger] self.entities@[j],
            ) by {
                lemma_damp_shrinks(old(self).entities@[j].momentum.x as int);
                lemma_damp_shrinks(old(self).entities@[j].momentum.y as int);
            }
        }
    }

    /// One whole frame: the input events, in delivery order, then one
    /// physics step.
    pub fn run_frame(&mut self, events: &Vec<Event>)
        requires
            old(self).wf(),
        ensures
            final(self).wf(),
            frame_transition(*old(self), *final(self), events@),
    {
        let n = events.len();
        let mut k: usize = 0;
        while k < n
            invariant
                0 <= k <= n,
                n == events@.len(),
                self.wf(),
                events_transition(*old(self), *self, events@.take(k as int)),
            decreases n - k,
        {
            let ghost before = *self;
            let ev = events[k];
            self.handle_event(ev);
            proof {
                lemma_events_transition_snoc(
                    *old(self),
                    before,
                    *self,
                    events@.take(k as int),
                    events@[k as int],
                );
                assert(events@.take(k as int).push(events@[k as int]) =~= events@.take(
                    k as int + 1,
                ));
            }
            k = k + 1;
        }
        proof {
            assert(events@.take(n as int) =~= events@);
        }
        let ghost mid = *self;
        self.step_physics();
        proof {
            assert(events_transition(*old(self), mid, events@) && mid.wf() && step_transition(
                mid,
                *self,
            ));
        }
    }

    /// Whether the state invariant holds; `true` on every world that only
    /// the constructors and handlers of this module built.
    pub fn is_wf(&self) -> (b: bool)
        ensures
            b == self.wf(),
    {
        if !(1 <= self.spawn_size.x && self.spawn_size.x <= MAX_SPAWN && 1 <= self.spawn_size.y
            && self.spawn_size.y <= MAX_SPAWN) {
            return false;
        }
        if let Some(c) = self.controlled_index {
            if c >= self.entities.len() {
                return false;
            }
            if !self.entities[c].is_controlled {
                return false;
            }
        }
        let n = self.entities.len();
        let mut i: usize = 0;
        while i < n
            invariant
                0 <= i <= n,
                n == self.entities@.len(),
                match self.controlled_index {
                    Some(c) => c < n && self.entities@[c as int].is_controlled,
                    None => true,
                },
                1 <= self.spawn_size.x <= MAX_SPAWN,
                1 <= self.spawn_size.y <= MAX_SPAWN,
                forall|j: int|
                    0 <= j < i ==> momentum_ok(#[trigger] self.entities@[j]),
                forall|j: int|
                    0 <= j < i && (#[trigger] self.entities@[j]).is_controlled ==> (
                    match self.controlled_index {
                        Some(c) => c as int == j,
                        None => false,
                    }),
            decreases n - i,
        {
            let e = self.entities[i];
            if e.momentum.x < -MOMENTUM_CAP || e.momentum.x > MOMENTUM_CAP || e.momentum.y
                < -MOMENTUM_CAP || e.momentum.y > MOMENTUM_CAP {
                return false;
            }
            if e.is_controlled {
                match self.controlled_index {
                    Some(c) => {
                        if c != i {
                            return false;
                        }
                    },
                    None => {
                        return false;
                    },
                }
            }
            i = i + 1;
        }
        true
    }

    /// What to draw, one entry per entity in creation order: the stored
    /// color, or the controlled color for the controlled entity.
    pub fn draw_list(&self) -> (out: Vec<DrawRect>)
        ensures
            out@.len() == self.entities@.len(),
            forall|j: int|
                0 <= j < self.entities@.len() ==> #[trigger] out@[j] == (DrawRect {
                    bounds: self.entities@[j].bounds,
                    color: draw_color(self.entities@[j]),
                }),
    {
        let n = self.entities.len();
        let mut out: Vec<DrawRect> = Vec::new();
        let mut i: usize = 0;
        while i < n
            invariant
                0 <= i <= n,
                n == self.entities@.len(),
                out@.len() == i,
                forall|j: int|
                    0 <= j < i ==> #[trigger] out@[j] == (DrawRect {
                        bounds: self.entities@[j].bounds,
                        color: draw_color(self.entities@[j]),
                    }),
            decreases n - i,
        {
            let e = self.entities[i];
            let color = if e.is_controlled {
                Color::red()
            } else {
                e.color
            };
            out.push(DrawRect { bounds: e.bounds, color });
            i = i + 1;
        }
        out
    }
}

impl Default for World {
    /// Same as `World::new`.
    fn default() -> (w: World)
        ensures
            w.wf(),
            w.entities@ == Seq::<Entity>::empty(),
            w.controlled_index is None,
            w.spawn_size == (Vec2 { x: DEFAULT_SPAWN, y: DEFAULT_SPAWN }),
    {
        World::new()
    }
}

/// The color an entity is drawn with.
pub open spec fn draw_color(e: Entity) -> Color {
    if e.is_controlled {
        Color::spec_red()
    } else {
        e.color
    }
}

/// Clamps a momentum vector to the hard cap: unchanged when its squared
/// magnitude is within the cap's square, otherwise rescaled to the cap.
fn clamp_momentum(mx: i64, my: i64) -> (r: (i64, i64))
    requires
        -MAX_PRE_CLAMP <= mx <= MAX_PRE_CLAMP,
        -MAX_PRE_CLAMP <= my <= MAX_PRE_CLAMP,
    ensures
        (r.0 as int, r.1 as int) == clamp_spec(mx as int, my as int),
        -MOMENTUM_CAP <= r.0 <= MOMENTUM_CAP,
        -MOMENTUM_CAP <= r.1 <= MOMENTUM_CAP,
{
    proof {
        assert(0 <= mx as int * mx as int <= 360_000_000_000_000_000) by (nonlinear_arith)
            requires
                -600_000_000 <= mx <= 600_000_000,
        ;
        assert(0 <= my as int * my as int <= 360_000_000_000_000_000) by (nonlinear_arith)
            requires
                -600_000_000 <= my <= 600_000_000,
        ;
    }
    let l2: i64 = mx * mx + my * my;
    if l2 <= MOMENTUM_CAP * MOMENTUM_CAP {
        proof {
            lemma_sq_le(mx as int, MOMENTUM_CAP as int);
            lemma_sq_le(my as int, MOMENTUM_CAP as int);
        }
        (mx, my)
    } else {
        let l: u64 = isqrt(l2 as u64);
        proof {
            lemma_isqrt_bounds(l2 as nat);
            assert(l as int * l as int <= l2);
            assert(l <= 0xFFFF_FFFF) by (nonlinear_arith)
                requires
                    l as int * l as int <= l2,
                    l2 <= 0x7FFF_FFFF_FFFF_FFFF,
                    l >= 0,
            ;
            assert(l >= 1) by (nonlinear_arith)
                requires
                    l2 < ((l as int) + 1) * ((l as int) + 1),
                    l2 > MOMENTUM_CAP * MOMENTUM_CAP,
                    l >= 0,
                    MOMENTUM_CAP >= 1,
            ;
            assert(-60_000_000_000_000 <= mx as int * MOMENTUM_CAP as int
                <= 60_000_000_000_000) by (nonlinear_arith)
                requires
                    -600_000_000 <= mx <= 600_000_000,
                    MOMENTUM_CAP == 10_000,
            ;
            assert(-60_000_000_000_000 <= my as int * MOMENTUM_CAP as int
                <= 60_000_000_000_000) by (nonlinear_arith)
                requires
                    -600_000_000 <= my <= 600_000_000,
                    MOMENTUM_CAP == 10_000,
            ;
            assert((mx as int) * (mx as int) < ((l as int) + 1) * ((l as int) + 1))
                by (nonlinear_arith)
                requires
                    (mx as int) * (mx as int) + (my as int) * (my as int) < ((l as int) + 1)
                        * ((l as int) + 1),
                    (my as int) * (my as int) >= 0,
            ;
            assert((my as int) * (my as int) < ((l as int) + 1) * ((l as int) + 1))
                by (nonlinear_arith)
                requires
                    (mx as int) * (mx as int) + (my as int) * (my as int) < ((l as int) + 1)
                        * ((l as int) + 1),
                    (mx as int) * (mx as int) >= 0,
            ;
            lemma_sq_le(mx as int, l as int);
            lemma_sq_le(my as int, l as int);
            assert(-(l as int * MOMENTUM_CAP as int) <= mx as int * MOMENTUM_CAP as int <= l
                as int * MOMENTUM_CAP as int) by (nonlinear_arith)
                requires
                    -(l as int) <= mx as int <= l as int,
                    MOMENTUM_CAP > 0,
            ;
            assert(-(l as int * MOMENTUM_CAP as int) <= my as int * MOMENTUM_CAP as int <= l
                as int * MOMENTUM_CAP as int) by (nonlinear_arith)
                requires
                    -(l as int) <= my as int <= l as int,
                    MOMENTUM_CAP > 0,
            ;
            lemma_tdiv_bound(mx as int * MOMENTUM_CAP as int, l as int, MOMENTUM_CAP as int);
            lemma_tdiv_bound(my as int * MOMENTUM_CAP as int, l as int, MOMENTUM_CAP as int);
        }
        let li: i64 = l as i64;
        let rx = tdiv(mx * MOMENTUM_CAP, li);
        let ry = tdiv(my * MOMENTUM_CAP, li);
        (rx, ry)
    }
}

} // verus!
