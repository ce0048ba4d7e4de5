//! The view state the rendering engine reads once per frame.
//!
//! The state is mutated only by the input handlers and by the position
//! updater below; the engine itself consumes an immutable snapshot. Zoom is
//! carried in thousandths and clamped to a fixed range; positions are
//! heliocentric micro-AU vectors, retained across failed refreshes.

use vstd::prelude::*;
use crate::bodies::{Body, BODY_COUNT, FOCUS_COUNT, catalog, spec_catalog};
use crate::numeric::round_div;

verus! {

/// The smallest zoom factor, in thousandths.
pub const ZOOM_MIN_MILLI: i64 = 200;

/// The largest zoom factor, in thousandths.
pub const ZOOM_MAX_MILLI: i64 = 50000;

/// The default zoom factor, in thousandths.
pub const ZOOM_DEFAULT_MILLI: i64 = 1000;

/// The largest magnitude a position coordinate may carry, in micro-AU.
pub const POS_LIMIT_MICRO_AU: i64 = 1000000000000;

/// A heliocentric position vector in micro-AU, ecliptic-referenced.
#[derive(Clone, Copy, PartialEq, Eq, Structural, Debug)]
pub struct Position {
    pub x: i64,
    pub y: i64,
    pub z: i64,
}

impl Position {
    /// Every coordinate within the range the projection arithmetic admits.
    pub open spec fn wf(self) -> bool {
        &&& -POS_LIMIT_MICRO_AU <= self.x <= POS_LIMIT_MICRO_AU
        &&& -POS_LIMIT_MICRO_AU <= self.y <= POS_LIMIT_MICRO_AU
        &&& -POS_LIMIT_MICRO_AU <= self.z <= POS_LIMIT_MICRO_AU
    }

    /// The origin: where the Sun always sits.
    pub fn origin() -> (p: Position)
        ensures
            p.wf(),
            p.x == 0 && p.y == 0 && p.z == 0,
    {
        Position { x: 0, y: 0, z: 0 }
    }
}

/// One body with its last known position, or none before the first
/// successful refresh.
#[derive(Clone, Copy, PartialEq, Eq, Structural, Debug)]
pub struct BodyState {
    pub body: Body,
    pub pos: Option<Position>,
}

impl BodyState {
    pub open spec fn wf(self) -> bool {
        match self.pos {
            Some(p) => p.wf(),
            None => true,
        }
    }
}

/// The snapshot the rendering engine reads each frame.
pub struct ViewState {
    pub bodies: Vec<BodyState>,
    pub last_update_utc: Option<String>,
    pub status: String,
    pub use_unicode_icons: bool,
    pub zoom_milli: i64,
    pub focus_index: usize,
}

impl ViewState {
    pub open spec fn wf(self) -> bool {
        &&& self.bodies@.len() == BODY_COUNT
        &&& forall|i: int| 0 <= i < self.bodies@.len() ==> (#[trigger] self.bodies@[i]).wf()
        &&& ZOOM_MIN_MILLI <= self.zoom_milli <= ZOOM_MAX_MILLI
        &&& self.focus_index < FOCUS_COUNT
    }

    /// The starting state: the full catalog with no position known yet,
    /// default zoom, and the outermost focus level.
    pub fn initial(use_unicode_icons: bool, status: String) -> (s: ViewState)
        ensures
            s.wf(),
            s.bodies@.len() == BODY_COUNT,
            forall|i: int|
                0 <= i < BODY_COUNT ==> (#[trigger] s.bodies@[i]) == (BodyState {
                    body: spec_catalog()[i],
                    pos: None::<Position>,
                }),
            s.zoom_milli == ZOOM_DEFAULT_MILLI,
            s.status == status,
            s.focus_index == FOCUS_COUNT - 1,
            s.use_unicode_icons == use_unicode_icons,
            s.last_update_utc is None,
    {
        let cat = catalog();
        let mut bodies: Vec<BodyState> = Vec::new();
        let mut i: usize = 0;
        while i < cat.len()
            invariant
                i <= cat.len(),
                cat@ == spec_catalog(),
                bodies@.len() == i,
                forall|j: int|
                    0 <= j < i ==> (#[trigger] bodies@[j]) == (BodyState {
                        body: spec_catalog()[j],
                        pos: None::<Position>,
                    }),
            decreases cat.len() - i,
        {
            bodies.push(BodyState { body: cat[i], pos: None });
            i = i + 1;
        }
        ViewState {
            bodies,
            last_update_utc: None,
            status,
            use_unicode_icons,
            zoom_milli: ZOOM_DEFAULT_MILLI,
            focus_index: FOCUS_COUNT - 1,
        }
    }
}

/// A zoom factor clamped into the fixed range.
pub open spec fn spec_clamp_zoom(z: int) -> int {
    if z < ZOOM_MIN_MILLI {
        ZOOM_MIN_MILLI as int
    } else if z > ZOOM_MAX_MILLI {
        ZOOM_MAX_MILLI as int
    } else {
        z
    }
}

/// Clamp a zoom factor to the fixed range: a request below the minimum or
/// above the maximum lands exactly on the boundary, never past it.
pub fn clamp_zoom(z: i64) -> (r: i64)
    ensures
        r == spec_clamp_zoom(z as int),
        ZOOM_MIN_MILLI <= r <= ZOOM_MAX_MILLI,
{
    if z < ZOOM_MIN_MILLI {
        ZOOM_MIN_MILLI
    } else if z > ZOOM_MAX_MILLI {
        ZOOM_MAX_MILLI
    } else {
        z
    }
}

/// One multiplicative zoom-in step: a quarter more, then clamped.
pub fn zoom_in(z: i64) -> (r: i64)
    requires
        ZOOM_MIN_MILLI <= z <= ZOOM_MAX_MILLI,
    ensures
        r == spec_clamp_zoom(round_div(z * 5, 4)),
        ZOOM_MIN_MILLI <= r <= ZOOM_MAX_MILLI,
{
    let stepped = ((10 * z + 4) as u64 / 8) as i64;
    clamp_zoom(stepped)
}

/// One multiplicative zoom-out step: divided by five fourths, then clamped.
pub fn zoom_out(z: i64) -> (r: i64)
    requires
        ZOOM_MIN_MILLI <= z <= ZOOM_MAX_MILLI,
    ensures
        r == spec_clamp_zoom(round_div(z * 4, 5)),
        ZOOM_MIN_MILLI <= r <= ZOOM_MAX_MILLI,
{
    let stepped = ((8 * z + 5) as u64 / 10) as i64;
    clamp_zoom(stepped)
}

/// The next focus level inward, stopping at the innermost.
pub fn focus_in(i: usize) -> (r: usize)
    requires
        i < FOCUS_COUNT,
    ensures
        r == if i > 0 {
            i - 1
        } else {
            0int
        },
        r < FOCUS_COUNT,
{
    if i > 0 {
        i - 1
    } else {
        0
    }
}

/// The next focus level outward, stopping at the outermost.
pub fn focus_out(i: usize) -> (r: usize)
    requires
        i < FOCUS_COUNT,
    ensures
        r == if i + 1 < FOCUS_COUNT {
            i + 1
        } else {
            i as int
        },
        r < FOCUS_COUNT,
{
    if i + 1 < FOCUS_COUNT {
        i + 1
    } else {
        i
    }
}

/// What one refresh cycle leaves in a body's slot: the Sun is pinned to the
/// origin, a fetched position replaces the old one, and a failed fetch
/// leaves the previous position untouched.
pub open spec fn spec_merged_pos(b: BodyState, new_pos: Option<Position>) -> Option<Position> {
    if b.body == Body::Sun {
        Some(Position { x: 0, y: 0, z: 0 })
    } else {
        match new_pos {
            Some(p) => Some(p),
            None => b.pos,
        }
    }
}

/// Apply one refresh cycle to the state: merge the per-body fetch results,
/// record the cycle's status line and timestamp, and touch nothing else.
pub fn apply_cycle(
    state: &mut ViewState,
    new_positions: &Vec<Option<Position>>,
    status: String,
    timestamp: String,
)
    requires
        old(state).wf(),
        new_positions@.len() == old(state).bodies@.len(),
        forall|i: int|
            0 <= i < new_positions@.len() ==> match #[trigger] new_positions@[i] {
                Some(p) => p.wf(),
                None => true,
            },
    ensures
        final(state).wf(),
        final(state).bodies@.len() == old(state).bodies@.len(),
        forall|i: int|
            0 <= i < old(state).bodies@.len() ==> (#[trigger] final(state).bodies@[i]) == (
            BodyState {
                body: old(state).bodies@[i].body,
                pos: spec_merged_pos(old(state).bodies@[i], new_positions@[i]),
            }),
        final(state).status == status,
        final(state).last_update_utc == Some(timestamp),
        final(state).zoom_milli == old(state).zoom_milli,
        final(state).focus_index == old(state).focus_index,
        final(state).use_unicode_icons == old(state).use_unicode_icons,
{
    let n = state.bodies.len();
    let mut merged: Vec<BodyState> = Vec::new();
    let mut i: usize = 0;
    while i < n
        invariant
            i <= n,
            n == state.bodies@.len(),
            state == old(state),
            old(state).wf(),
            new_positions@.len() == n,
            forall|k: int|
                0 <= k < new_positions@.len() ==> match #[trigger] new_positions@[k] {
                    Some(p) => p.wf(),
                    None => true,
                },
            merged@.len() == i,
            forall|j: int|
                0 <= j < i ==> (#[trigger] merged@[j]) == (BodyState {
                    body: old(state).bodies@[j].body,
                    pos: spec_merged_pos(old(state).bodies@[j], new_positions@[j]),
                }),
            forall|j: int| 0 <= j < i ==> (#[trigger] merged@[j]).wf(),
        decreases n - i,
    {
        let b = state.bodies[i];
        let pos = if matches!(b.body, Body::Sun) {
            Some(Position { x: 0, y: 0, z: 0 })
        } else {
            match new_positions[i] {
                Some(p) => Some(p),
                None => b.pos,
            }
        };
        merged.push(BodyState { body: b.body, pos });
        i = i + 1;
    }
    state.bodies = merged;
    state.status = status;
    state.last_update_utc = Some(timestamp);
}

} // verus!
