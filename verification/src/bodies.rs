//! The closed catalog of celestial bodies and the focus levels.
//!
//! Each body carries display metadata and a nominal circular orbit radius in
//! micro-AU; the Sun has none. A focus level names the orbit radius the view
//! is fitted to, ordered from the innermost choice outward.

use vstd::prelude::*;
use crate::grid::Color;

verus! {

/// The number of bodies in the catalog: the Sun and the eight planets.
pub const BODY_COUNT: usize = 9;

/// The number of focus levels.
pub const FOCUS_COUNT: usize = 6;

/// The bodies the map knows, in draw order.
#[derive(Clone, Copy, PartialEq, Eq, Structural, Debug)]
pub enum Body {
    Sun,
    Mercury,
    Venus,
    Earth,
    Mars,
    Jupiter,
    Saturn,
    Uranus,
    Neptune,
}

/// The nominal orbit radius of a body in micro-AU; the Sun has none.
pub open spec fn spec_orbit_micro_au(b: Body) -> Option<i64> {
    match b {
        Body::Sun => None,
        Body::Mercury => Some(387098i64),
        Body::Venus => Some(723332i64),
        Body::Earth => Some(1000000i64),
        Body::Mars => Some(1523679i64),
        Body::Jupiter => Some(5203800i64),
        Body::Saturn => Some(9537070i64),
        Body::Uranus => Some(19191260i64),
        Body::Neptune => Some(30068960i64),
    }
}

pub fn orbit_micro_au(b: Body) -> (r: Option<i64>)
    ensures
        r == spec_orbit_micro_au(b),
{
    match b {
        Body::Sun => None,
        Body::Mercury => Some(387098),
        Body::Venus => Some(723332),
        Body::Earth => Some(1000000),
        Body::Mars => Some(1523679),
        Body::Jupiter => Some(5203800),
        Body::Saturn => Some(9537070),
        Body::Uranus => Some(19191260),
        Body::Neptune => Some(30068960),
    }
}

/// The display color of a body.
pub open spec fn spec_body_color(b: Body) -> Color {
    match b {
        Body::Sun => Color::Yellow,
        Body::Mercury => Color::LightMagenta,
        Body::Venus => Color::LightYellow,
        Body::Earth => Color::LightBlue,
        Body::Mars => Color::Red,
        Body::Jupiter => Color::LightRed,
        Body::Saturn => Color::LightYellow,
        Body::Uranus => Color::Cyan,
        Body::Neptune => Color::Blue,
    }
}

pub fn body_color(b: Body) -> (c: Color)
    ensures
        c == spec_body_color(b),
{
    match b {
        Body::Sun => Color::Yellow,
        Body::Mercury => Color::LightMagenta,
        Body::Venus => Color::LightYellow,
        Body::Earth => Color::LightBlue,
        Body::Mars => Color::Red,
        Body::Jupiter => Color::LightRed,
        Body::Saturn => Color::LightYellow,
        Body::Uranus => Color::Cyan,
        Body::Neptune => Color::Blue,
    }
}

/// The marker glyph of a body: a text-safe glyph, or a symbol for terminals
/// with extended glyph support.
pub open spec fn spec_body_icon(b: Body, use_unicode: bool) -> char {
    if use_unicode {
        match b {
            Body::Sun => '\u{2609}',
            Body::Mercury => '\u{263F}',
            Body::Venus => '\u{2640}',
            Body::Earth => '\u{2641}',
            Body::Mars => '\u{2642}',
            Body::Jupiter => '\u{2643}',
            Body::Saturn => '\u{2644}',
            Body::Uranus => '\u{2645}',
            Body::Neptune => '\u{2646}',
        }
    } else {
        match b {
            Body::Sun => '@',
            _ => 'o',
        }
    }
}

pub fn body_icon(b: Body, use_unicode: bool) -> (c: char)
    ensures
        c == spec_body_icon(b, use_unicode),
{
    if use_unicode {
        match b {
            Body::Sun => '\u{2609}',
            Body::Mercury => '\u{263F}',
            Body::Venus => '\u{2640}',
            Body::Earth => '\u{2641}',
            Body::Mars => '\u{2642}',
            Body::Jupiter => '\u{2643}',
            Body::Saturn => '\u{2644}',
            Body::Uranus => '\u{2645}',
            Body::Neptune => '\u{2646}',
        }
    } else {
        match b {
            Body::Sun => '@',
            _ => 'o',
        }
    }
}

/// The catalog in draw order: the Sun first, then the planets from the
/// innermost outward.
pub open spec fn spec_catalog() -> Seq<Body> {
    seq![
        Body::Sun,
        Body::Mercury,
        Body::Venus,
        Body::Earth,
        Body::Mars,
        Body::Jupiter,
        Body::Saturn,
        Body::Uranus,
        Body::Neptune,
    ]
}

pub fn catalog() -> (v: Vec<Body>)
    ensures
        v@ == spec_catalog(),
{
    let mut v: Vec<Body> = Vec::new();
    v.push(Body::Sun);
    v.push(Body::Mercury);
    v.push(Body::Venus);
    v.push(Body::Earth);
    v.push(Body::Mars);
    v.push(Body::Jupiter);
    v.push(Body::Saturn);
    v.push(Body::Uranus);
    v.push(Body::Neptune);
    proof {
        assert(v@ =~= spec_catalog());
    }
    v
}

/// The orbit radius in micro-AU that a focus level fits to the panel,
/// from the innermost choice outward.
pub open spec fn spec_focus_radius_micro_au(i: int) -> i64 {
    if i == 0 {
        1000000i64
    } else if i == 1 {
        1523679i64
    } else if i == 2 {
        5203800i64
    } else if i == 3 {
        9537070i64
    } else if i == 4 {
        19191260i64
    } else {
        30068960i64
    }
}

pub fn focus_radius_micro_au(i: usize) -> (r: i64)
    requires
        i < FOCUS_COUNT,
    ensures
        r == spec_focus_radius_micro_au(i as int),
        1000000 <= r <= 30068960,
{
    if i == 0 {
        1000000
    } else if i == 1 {
        1523679
    } else if i == 2 {
        5203800
    } else if i == 3 {
        9537070
    } else if i == 4 {
        19191260
    } else {
        30068960
    }
}

/// The body a focus level is named after.
pub fn focus_body(i: usize) -> (b: Body)
    requires
        i < FOCUS_COUNT,
    ensures
        spec_orbit_micro_au(b) == Some(spec_focus_radius_micro_au(i as int)),
{
    if i == 0 {
        Body::Earth
    } else if i == 1 {
        Body::Mars
    } else if i == 2 {
        Body::Jupiter
    } else if i == 3 {
        Body::Saturn
    } else if i == 4 {
        Body::Uranus
    } else {
        Body::Neptune
    }
}

} // verus!
