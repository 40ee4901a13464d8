//! A single occupied cell of the grid, and the arithmetic of its collisions.

use vstd::prelude::*;
use crate::catalog::spec_element;
use crate::element::{flags_intersect, EFlag, Element, ElementId, PERFECT_RESTITUTION};

pub mod element_state;

pub use element_state::{clamp_info, ElementData, ElementState};

verus! {

/// A pair of small signed numbers: a velocity, or a position inside a cell.
#[derive(Clone, Copy, PartialEq, Eq, Debug, Structural)]
pub struct Vector {
    pub x: i8,
    pub y: i8,
}

impl Vector {
    pub fn is_zero(&self) -> (zero: bool)
        ensures
            zero == (self.x == 0 && self.y == 0),
    {
        self.x == 0 && self.y == 0
    }
}

/// One particle. An empty cell holds no tile.
#[derive(Clone, Copy, PartialEq, Eq, Debug, Structural)]
pub struct Tile {
    /// Set when the tile has come to rest; cleared when it is disturbed.
    pub paused: bool,
    pub velocity: Vector,
    pub position: Vector,
    pub temperature: i16,
    pub element_data: ElementData,
}

/// The quotient of `a` by `b` rounded toward zero; 0 where `b` is 0.
pub open spec fn trunc_div(a: int, b: int) -> int {
    if b == 0 {
        0
    } else if a >= 0 && b > 0 {
        a / b
    } else if a < 0 && b > 0 {
        -((-a) / b)
    } else if a >= 0 && b < 0 {
        -(a / (-b))
    } else {
        (-a) / (-b)
    }
}

/// `value` held to the range of a velocity component.
pub open spec fn clamp_velocity(value: int) -> i8 {
    if value > i8::MAX {
        i8::MAX
    } else if value < i8::MIN {
        i8::MIN
    } else {
        value as i8
    }
}

/// A velocity after a collision with another tile has bled energy:
/// four fifths of `v`, rounded toward zero.
pub open spec fn damped(v: int) -> int {
    trunc_div(4 * v, 5)
}

/// A velocity after a bounce off a fixed tile: `v` reversed and halved,
/// rounded toward zero.
pub open spec fn rebound(v: int) -> int {
    trunc_div(-v, 2)
}

/// The velocity of a body of mass `m` and velocity `v` after an elastic
/// collision with a body of mass `m_other` and velocity `v_other`, times
/// `m + m_other`:
/// `(m - m_other) * v + 2 * m_other * v_other`.
pub open spec fn exchange_numerator(v: int, v_other: int, m: int, m_other: int) -> int {
    (m - m_other) * v + 2 * m_other * v_other
}

/// The velocity that a body takes from an elastic collision, saturated:
/// with perfect restitution the whole of the exchange, and else four fifths
/// of it, rounded toward zero. Two bodies whose masses sum to zero stop.
pub open spec fn collided_velocity(perfect: bool, v: int, v_other: int, m: int, m_other: int) -> i8 {
    if m + m_other == 0 {
        0i8
    } else if perfect {
        clamp_velocity(trunc_div(exchange_numerator(v, v_other, m, m_other), m + m_other))
    } else {
        clamp_velocity(trunc_div(4 * exchange_numerator(v, v_other, m, m_other), 5 * (m + m_other)))
    }
}

/// The velocity with which a tile leaves a fixed tile that it ran into with
/// `v`: reversed, and halved unless the restitution is perfect.
pub open spec fn reflected_velocity(perfect: bool, v: i8) -> i8 {
    if perfect {
        clamp_velocity(-(v as int))
    } else {
        rebound(v as int) as i8
    }
}

/// The largest value of a velocity component.
///
/// Calls `<i8 as num::Bounded>::max_value`, which returns `i8::MAX`.
#[verifier::external_body]
fn velocity_upper_bound() -> (bound: i8)
    ensures
        bound == i8::MAX,
{
    <i8 as num::Bounded>::max_value()
}

/// The smallest value of a velocity component.
///
/// Calls `<i8 as num::Bounded>::min_value`, which returns `i8::MIN`.
#[verifier::external_body]
fn velocity_lower_bound() -> (bound: i8)
    ensures
        bound == i8::MIN,
{
    <i8 as num::Bounded>::min_value()
}

/// Converts to a velocity component, saturating at the bounds.
pub fn clamp_convert(t: i32) -> (v: i8)
    ensures
        v == clamp_velocity(t as int),
{
    let upper = velocity_upper_bound();
    let lower = velocity_lower_bound();
    if t > upper as i32 {
        upper
    } else if t < lower as i32 {
        lower
    } else {
        t as i8
    }
}

/// Divides, rounding toward zero; gives 0 for a zero divisor.
fn divide_toward_zero(a: i32, b: i32) -> (q: i32)
    requires
        a > i32::MIN,
        b > i32::MIN,
    ensures
        q == trunc_div(a as int, b as int),
{
    if b == 0 {
        0
    } else if b > 0 {
        a / b
    } else {
        (-a) / (-b)
    }
}

/// The velocity that a body takes from an elastic collision along one axis.
fn collide(v: i8, v_other: i8, m: i8, m_other: i8, perfect: bool) -> (out: i8)
    ensures
        out == collided_velocity(perfect, v as int, v_other as int, m as int, m_other as int),
{
    let total: i32 = m as i32 + m_other as i32;
    if total == 0 {
        return 0;
    }
    let lead: i32 = m as i32 - m_other as i32;
    assert(-32640 <= lead * (v as i32) <= 32640) by (nonlinear_arith)
        requires
            -255 <= lead <= 255,
            -128 <= v <= 127,
    ;
    assert(-16384 <= (m_other as i32) * (v_other as i32) <= 16384) by (nonlinear_arith)
        requires
            -128 <= m_other <= 127,
            -128 <= v_other <= 127,
    ;
    let exchange: i32 = lead * (v as i32) + 2 * ((m_other as i32) * (v_other as i32));
    assert(exchange == exchange_numerator(v as int, v_other as int, m as int, m_other as int))
        by (nonlinear_arith)
        requires
            lead == m - m_other,
            exchange == lead * v + 2 * (m_other * v_other),
    ;
    if perfect {
        clamp_convert(divide_toward_zero(exchange, total))
    } else {
        clamp_convert(divide_toward_zero(4 * exchange, 5 * total))
    }
}

/// Both velocities after two bodies collide elastically along one axis:
/// of the exchange each keeps four fifths, rounded toward zero and
/// saturated.
pub fn elastic_collide(v1: i8, v2: i8, m1: i8, m2: i8) -> (out: (i8, i8))
    ensures
        out.0 == collided_velocity(false, v1 as int, v2 as int, m1 as int, m2 as int),
        out.1 == collided_velocity(false, v2 as int, v1 as int, m2 as int, m1 as int),
{
    (collide(v1, v2, m1, m2, false), collide(v2, v1, m2, m1, false))
}

/// Both velocities after two bodies of perfect restitution collide
/// elastically along one axis: the whole of the exchange, saturated.
pub fn elastic_exchange(v1: i8, v2: i8, m1: i8, m2: i8) -> (out: (i8, i8))
    ensures
        out.0 == collided_velocity(true, v1 as int, v2 as int, m1 as int, m2 as int),
        out.1 == collided_velocity(true, v2 as int, v1 as int, m2 as int, m1 as int),
{
    (collide(v1, v2, m1, m2, true), collide(v2, v1, m2, m1, true))
}

/// The size of `v` without its sign.
pub open spec fn magnitude(v: int) -> int {
    if v < 0 {
        -v
    } else {
        v
    }
}

/// Two bodies of equal mass exchange their velocities in an elastic
/// collision: before damping, each leaves with the velocity that the other
/// came with. Head-on, with `v` against `-v`, each velocity changes sign.
pub proof fn lemma_equal_masses_exchange_velocities(v1: int, v2: int, m: int)
    ensures
        exchange_numerator(v1, v2, m, m) == (m + m) * v2,
        exchange_numerator(v2, v1, m, m) == (m + m) * v1,
        exchange_numerator(v1, -v1, m, m) == (m + m) * (-v1),
        exchange_numerator(-v1, v1, m, m) == (m + m) * v1,
{
    assert(exchange_numerator(v1, v2, m, m) == (m + m) * v2) by (nonlinear_arith)
        requires
            exchange_numerator(v1, v2, m, m) == (m - m) * v1 + 2 * m * v2,
    ;
    assert(exchange_numerator(v2, v1, m, m) == (m + m) * v1) by (nonlinear_arith)
        requires
            exchange_numerator(v2, v1, m, m) == (m - m) * v2 + 2 * m * v1,
    ;
    assert(exchange_numerator(v1, -v1, m, m) == (m + m) * (-v1)) by (nonlinear_arith)
        requires
            exchange_numerator(v1, -v1, m, m) == (m - m) * v1 + 2 * m * (-v1),
    ;
    assert(exchange_numerator(-v1, v1, m, m) == (m + m) * v1) by (nonlinear_arith)
        requires
            exchange_numerator(-v1, v1, m, m) == (m - m) * (-v1) + 2 * m * v1,
    ;
}

/// After a collision of two tiles of equal positive mass, each tile has the
/// other's velocity: all of it with perfect restitution, and else damped
/// once.
pub proof fn lemma_equal_masses_collide(v1: i8, v2: i8, m: i8)
    requires
        m > 0,
    ensures
        collided_velocity(true, v1 as int, v2 as int, m as int, m as int) == v2,
        collided_velocity(true, v2 as int, v1 as int, m as int, m as int) == v1,
        collided_velocity(false, v1 as int, v2 as int, m as int, m as int) == damped(v2 as int),
        collided_velocity(false, v2 as int, v1 as int, m as int, m as int) == damped(v1 as int),
{
    lemma_equal_masses_exchange_velocities(v1 as int, v2 as int, m as int);
    lemma_scaled_quotient(4 * v1, 5, m + m);
    lemma_scaled_quotient(4 * v2, 5, m + m);
    lemma_scaled_quotient(v1 as int, 1, m + m);
    lemma_scaled_quotient(v2 as int, 1, m + m);
    assert((m + m) * 1 == m + m);
    assert(4 * ((m + m) * v2) == (m + m) * (4 * v2)) by (nonlinear_arith);
    assert(4 * ((m + m) * v1) == (m + m) * (4 * v1)) by (nonlinear_arith);
    assert(5 * (m + m) == (m + m) * 5) by (nonlinear_arith);
}

/// A common positive factor of both operands leaves the truncated quotient
/// as it is.
pub proof fn lemma_scaled_quotient(a: int, b: int, k: int)
    requires
        b > 0,
        k > 0,
    ensures
        trunc_div(k * a, k * b) == trunc_div(a, b),
{
    assert(k * b > 0) by (nonlinear_arith)
        requires
            b > 0,
            k > 0,
    ;
    if a >= 0 {
        assert(k * a >= 0) by (nonlinear_arith)
            requires
                a >= 0,
                k > 0,
        ;
        vstd::arithmetic::div_mod::lemma_div_multiples_vanish_quotient(k, a, b);
    } else {
        assert(k * a < 0) by (nonlinear_arith)
            requires
                a < 0,
                k > 0,
        ;
        assert(-(k * a) == k * (-a)) by (nonlinear_arith);
        vstd::arithmetic::div_mod::lemma_div_multiples_vanish_quotient(k, -a, b);
    }
}

/// In an elastic collision the heavier body changes its velocity less than
/// the lighter one, before damping: the changes, both taken times the sum
/// of the masses, are in the ratio of the other body's mass.
pub proof fn lemma_heavier_body_changes_less(v1: int, v2: int, m1: int, m2: int)
    requires
        0 < m2 < m1,
    ensures
        exchange_numerator(v1, v2, m1, m2) - (m1 + m2) * v1 == 2 * m2 * (v2 - v1),
        exchange_numerator(v2, v1, m2, m1) - (m1 + m2) * v2 == 2 * m1 * (v1 - v2),
        magnitude(exchange_numerator(v1, v2, m1, m2) - (m1 + m2) * v1) <= magnitude(
            exchange_numerator(v2, v1, m2, m1) - (m1 + m2) * v2,
        ),
        v1 != v2 ==> magnitude(exchange_numerator(v1, v2, m1, m2) - (m1 + m2) * v1) < magnitude(
            exchange_numerator(v2, v1, m2, m1) - (m1 + m2) * v2,
        ),
{
    let d = v2 - v1;
    assert(exchange_numerator(v1, v2, m1, m2) - (m1 + m2) * v1 == 2 * m2 * d) by (nonlinear_arith)
        requires
            exchange_numerator(v1, v2, m1, m2) == (m1 - m2) * v1 + 2 * m2 * v2,
            d == v2 - v1,
    ;
    assert(exchange_numerator(v2, v1, m2, m1) - (m1 + m2) * v2 == 2 * m1 * (-d)) by (nonlinear_arith)
        requires
            exchange_numerator(v2, v1, m2, m1) == (m2 - m1) * v2 + 2 * m1 * v1,
            d == v2 - v1,
    ;
    assert(magnitude(2 * m2 * d) <= magnitude(2 * m1 * (-d)) && (d != 0 ==> magnitude(2 * m2 * d)
        < magnitude(2 * m1 * (-d)))) by (nonlinear_arith)
        requires
            0 < m2 < m1,
    ;
}

/// An elastic collision keeps the total momentum, before damping.
pub proof fn lemma_momentum_is_conserved(v1: int, v2: int, m1: int, m2: int)
    ensures
        m1 * exchange_numerator(v1, v2, m1, m2) + m2 * exchange_numerator(v2, v1, m2, m1) == (m1
            + m2) * (m1 * v1 + m2 * v2),
{
    let p = m1 * v1;
    let q = m2 * v2;
    let s = m2 * v1;
    let t = m1 * v2;
    assert((m1 - m2) * v1 == p - s) by (nonlinear_arith)
        requires
            p == m1 * v1,
            s == m2 * v1,
    ;
    assert((m2 - m1) * v2 == q - t) by (nonlinear_arith)
        requires
            q == m2 * v2,
            t == m1 * v2,
    ;
    assert(2 * m2 * v2 == 2 * q && 2 * m1 * v1 == 2 * p) by (nonlinear_arith)
        requires
            p == m1 * v1,
            q == m2 * v2,
    ;
    assert(m1 * (p - s + 2 * q) == m1 * p - m1 * s + 2 * (m1 * q)) by (nonlinear_arith);
    assert(m2 * (q - t + 2 * p) == m2 * q - m2 * t + 2 * (m2 * p)) by (nonlinear_arith);
    assert((m1 + m2) * (p + q) == m1 * p + m1 * q + m2 * p + m2 * q) by (nonlinear_arith);
    assert(m1 * s == m2 * p) by (nonlinear_arith)
        requires
            p == m1 * v1,
            s == m2 * v1,
    ;
    assert(m2 * t == m1 * q) by (nonlinear_arith)
        requires
            q == m2 * v2,
            t == m1 * v2,
    ;
}

/// A quotient rounded toward zero, taken times the divisor, misses the
/// dividend by less than the divisor, and never overshoots it.
pub proof fn lemma_truncation_error(a: int, b: int)
    requires
        b > 0,
    ensures
        -b < a - b * trunc_div(a, b) < b,
        a >= 0 ==> a - b * trunc_div(a, b) >= 0,
        a <= 0 ==> a - b * trunc_div(a, b) <= 0,
{
    if a >= 0 {
        vstd::arithmetic::div_mod::lemma_fundamental_div_mod(a, b);
        vstd::arithmetic::div_mod::lemma_mod_bound(a, b);
    } else {
        vstd::arithmetic::div_mod::lemma_fundamental_div_mod(-a, b);
        vstd::arithmetic::div_mod::lemma_mod_bound(-a, b);
        assert(b * (-((-a) / b)) == -(b * ((-a) / b))) by (nonlinear_arith);
    }
}

/// What an elastic collision with damping keeps: of two bodies of positive
/// mass whose velocities need no saturation, the total momentum afterwards
/// is four fifths of what it was, and the velocity of the one relative to
/// the other is reversed and four fifths of what it was, each up to the
/// rounding of the two velocities.
pub proof fn lemma_damped_collision_keeps_four_fifths(v1: i8, v2: i8, m1: i8, m2: i8)
    requires
        m1 > 0,
        m2 > 0,
        i8::MIN <= trunc_div(
            4 * exchange_numerator(v1 as int, v2 as int, m1 as int, m2 as int),
            5 * (m1 + m2),
        ) <= i8::MAX,
        i8::MIN <= trunc_div(
            4 * exchange_numerator(v2 as int, v1 as int, m2 as int, m1 as int),
            5 * (m2 + m1),
        ) <= i8::MAX,
    ensures
        ({
            let a = collided_velocity(false, v1 as int, v2 as int, m1 as int, m2 as int) as int;
            let b = collided_velocity(false, v2 as int, v1 as int, m2 as int, m1 as int) as int;
            &&& magnitude(5 * (m1 * a + m2 * b) - 4 * (m1 * v1 + m2 * v2)) < 5 * (m1 + m2)
            &&& magnitude(5 * (a - b) + 4 * (v1 - v2)) < 10
        }),
{
    let (v1, v2, m1, m2) = (v1 as int, v2 as int, m1 as int, m2 as int);
    let total = m1 + m2;
    let first = exchange_numerator(v1, v2, m1, m2);
    let second = exchange_numerator(v2, v1, m2, m1);
    let a = trunc_div(4 * first, 5 * total);
    let b = trunc_div(4 * second, 5 * total);
    assert(collided_velocity(false, v1, v2, m1, m2) == a);
    assert(collided_velocity(false, v2, v1, m2, m1) == b);
    lemma_truncation_error(4 * first, 5 * total);
    lemma_truncation_error(4 * second, 5 * total);
    lemma_momentum_is_conserved(v1, v2, m1, m2);
    let miss_a = 4 * first - 5 * total * a;
    let miss_b = 4 * second - 5 * total * b;
    let momentum = m1 * v1 + m2 * v2;
    // Momentum.
    let lost = 4 * momentum - 5 * (m1 * a + m2 * b);
    assert(m1 * miss_a == 4 * (m1 * first) - 5 * (total * (m1 * a))) by (nonlinear_arith)
        requires
            miss_a == 4 * first - 5 * total * a,
    ;
    assert(m2 * miss_b == 4 * (m2 * second) - 5 * (total * (m2 * b))) by (nonlinear_arith)
        requires
            miss_b == 4 * second - 5 * total * b,
    ;
    assert(total * lost == 4 * (total * momentum) - 5 * (total * (m1 * a) + total * (m2 * b)))
        by (nonlinear_arith)
        requires
            lost == 4 * momentum - 5 * (m1 * a + m2 * b),
    ;
    assert(m1 * miss_a + m2 * miss_b == total * lost);
    assert(-(total * (5 * total)) < m1 * miss_a + m2 * miss_b < total * (5 * total)) by (nonlinear_arith)
        requires
            -(5 * total) < miss_a < 5 * total,
            -(5 * total) < miss_b < 5 * total,
            m1 > 0,
            m2 > 0,
            total == m1 + m2,
    ;
    assert(-(5 * total) < lost < 5 * total) by (nonlinear_arith)
        requires
            -(total * (5 * total)) < total * lost < total * (5 * total),
            total > 0,
    ;
    // The velocity of the one relative to the other.
    let turned = 5 * (a - b) + 4 * (v1 - v2);
    assert(first - second == -(total * (v1 - v2))) by (nonlinear_arith)
        requires
            first == (m1 - m2) * v1 + 2 * m2 * v2,
            second == (m2 - m1) * v2 + 2 * m1 * v1,
            total == m1 + m2,
    ;
    assert(miss_a - miss_b == -(total * turned)) by (nonlinear_arith)
        requires
            miss_a == 4 * first - 5 * total * a,
            miss_b == 4 * second - 5 * total * b,
            first - second == -(total * (v1 - v2)),
            turned == 5 * (a - b) + 4 * (v1 - v2),
    ;
    assert(-10 < turned < 10) by (nonlinear_arith)
        requires
            -(10 * total) < total * turned < 10 * total,
            total > 0,
    ;
}

/// A velocity that is pushed past a bound stays at the bound: it never
/// wraps round to the other sign.
pub proof fn lemma_velocity_saturates(v: i8, delta: int)
    ensures
        delta >= 0 ==> clamp_velocity(v + delta) >= v,
        delta <= 0 ==> clamp_velocity(v + delta) <= v,
        v + delta >= i8::MAX ==> clamp_velocity(v + delta) == i8::MAX,
        v + delta <= i8::MIN ==> clamp_velocity(v + delta) == i8::MIN,
        i8::MIN <= v + delta <= i8::MAX ==> clamp_velocity(v + delta) == v + delta,
{
}

/// Adds to a velocity component, saturating at the bounds.
pub fn saturating_add(v: i8, delta: i8) -> (sum: i8)
    ensures
        sum == clamp_velocity(v + delta),
{
    clamp_convert(v as i32 + delta as i32)
}

impl Tile {
    /// The element that readers see.
    pub open spec fn id(&self) -> u8 {
        self.element_data.current.element_id.0
    }

    /// The info byte that readers see.
    pub open spec fn info(&self) -> u8 {
        self.element_data.current.special_info@
    }

    /// The descriptor of the element that readers see.
    pub open spec fn element(&self) -> Element {
        spec_element(self.id())
    }

    /// Whether the tile's element carries one of the bits of `flag`.
    pub open spec fn flagged(&self, flag: EFlag) -> bool {
        flags_intersect(self.element().flags, flag)
    }

    /// This tile with another velocity.
    pub open spec fn with_velocity(self, velocity: Vector) -> Tile {
        Tile { velocity, ..self }
    }

    /// This tile with another paused flag.
    pub open spec fn with_paused(self, paused: bool) -> Tile {
        Tile { paused, ..self }
    }

    /// This tile with `state` staged.
    pub open spec fn with_staged(self, state: ElementState) -> Tile {
        Tile { element_data: ElementData { current: self.element_data.current, staged: state }, ..self }
    }

    /// This tile with its staged state made visible.
    pub open spec fn committed(self) -> Tile {
        Tile {
            element_data: ElementData {
                current: self.element_data.staged,
                staged: self.element_data.staged,
            },
            ..self
        }
    }

    /// This tile after an elastic collision with `other` along the x axis.
    pub open spec fn after_elastic_x(self, other: Tile) -> Tile {
        self.with_velocity(
            Vector {
                x: collided_velocity(
                    self.flagged(PERFECT_RESTITUTION),
                    self.velocity.x as int,
                    other.velocity.x as int,
                    self.element().mass as int,
                    other.element().mass as int,
                ),
                y: self.velocity.y,
            },
        )
    }

    /// This tile after an elastic collision with `other` along the y axis.
    pub open spec fn after_elastic_y(self, other: Tile) -> Tile {
        self.with_velocity(
            Vector {
                x: self.velocity.x,
                y: collided_velocity(
                    self.flagged(PERFECT_RESTITUTION),
                    self.velocity.y as int,
                    other.velocity.y as int,
                    self.element().mass as int,
                    other.element().mass as int,
                ),
            },
        )
    }

    /// This tile after a bounce off a fixed tile along the x axis.
    pub open spec fn after_reflect_x(self) -> Tile {
        self.with_velocity(
            Vector {
                x: reflected_velocity(self.flagged(PERFECT_RESTITUTION), self.velocity.x),
                y: self.velocity.y,
            },
        )
    }

    /// This tile after a bounce off a fixed tile along the y axis.
    pub open spec fn after_reflect_y(self) -> Tile {
        self.with_velocity(
            Vector {
                x: self.velocity.x,
                y: reflected_velocity(self.flagged(PERFECT_RESTITUTION), self.velocity.y),
            },
        )
    }

    /// A tile that is awake, with `element_state` both visible and staged.
    pub fn new(element_state: ElementState, position: Vector, velocity: Vector, temperature: i16) -> (tile: Tile)
        ensures
            tile == (Tile {
                paused: false,
                velocity,
                position,
                temperature,
                element_data: ElementData { current: element_state, staged: element_state },
            }),
    {
        Tile {
            element_data: ElementData::new(element_state),
            paused: false,
            temperature,
            position,
            velocity,
        }
    }

    /// A tile at rest in the middle of its cell.
    pub fn stationary(element_state: ElementState, temperature: i16) -> (tile: Tile)
        ensures
            tile == (Tile {
                paused: false,
                velocity: Vector { x: 0, y: 0 },
                position: Vector { x: 0, y: 0 },
                temperature,
                element_data: ElementData { current: element_state, staged: element_state },
            }),
    {
        Tile {
            element_data: ElementData::new(element_state),
            temperature,
            paused: false,
            position: Vector { x: 0, y: 0 },
            velocity: Vector { x: 0, y: 0 },
        }
    }

    /// Stages a fresh state of `element`. Readers see it after the next
    /// `save_state`.
    pub fn set_element(&mut self, element: ElementId)
        ensures
            *final(self) == old(self).with_staged(ElementState::spec_new(element, 1)),
    {
        self.element_data.stage(ElementState::default(element));
    }

    pub fn get_element(&self) -> (e: Element)
        ensures
            e == self.element(),
    {
        ElementId(self.element_id()).get_element()
    }

    pub fn element_id(&self) -> (id: u8)
        ensures
            id == self.id(),
    {
        self.element_data.element_id().0
    }

    pub fn special_info(&self) -> (info: u8)
        ensures
            info == self.info(),
            info != 0,
    {
        self.get_state().special_info.as_u8()
    }

    /// Stages the given element and info. Readers see them after the next
    /// `save_state`.
    pub fn edit_state(&mut self, element_id: ElementId, special_info: u8)
        requires
            special_info != 0,
        ensures
            *final(self) == old(self).with_staged(ElementState::spec_new(element_id, special_info)),
    {
        self.element_data.stage(ElementState::new(element_id, special_info));
    }

    /// Adds `delta` to the staged info, saturating at 1 and at 255.
    pub fn adjust_info(&mut self, delta: i16)
        ensures
            *final(self) == old(self).with_staged(
                ElementState::spec_new(
                    old(self).element_data.staged.element_id,
                    clamp_info(old(self).element_data.staged.special_info@ + delta),
                ),
            ),
    {
        self.element_data.adjust(delta);
    }

    pub fn increment_info(&mut self)
        ensures
            *final(self) == old(self).with_staged(
                ElementState::spec_new(
                    old(self).element_data.staged.element_id,
                    clamp_info(old(self).element_data.staged.special_info@ + 1),
                ),
            ),
    {
        self.adjust_info(1);
    }

    pub fn decrement_info(&mut self)
        ensures
            *final(self) == old(self).with_staged(
                ElementState::spec_new(
                    old(self).element_data.staged.element_id,
                    clamp_info(old(self).element_data.staged.special_info@ - 1),
                ),
            ),
    {
        self.adjust_info(-1);
    }

    /// Whether readers see exactly this element and info.
    pub fn has_state(&self, element_id: ElementId, special_info: u8) -> (same: bool)
        requires
            special_info != 0,
        ensures
            same == (self.id() == element_id.0 && self.info() == special_info),
    {
        let wanted = ElementState::new(element_id, special_info);
        let seen = self.get_state();
        seen.element_id.0 == wanted.element_id.0 && seen.special_info.as_u8()
            == wanted.special_info.as_u8()
    }

    /// Makes the staged state visible.
    pub fn save_state(&mut self)
        ensures
            *final(self) == old(self).committed(),
    {
        self.element_data.commit();
    }

    /// The state that readers see.
    pub fn get_state(&self) -> (state: &ElementState)
        ensures
            *state == self.element_data.current,
    {
        self.element_data.as_ref()
    }

    pub fn has_flag(&self, flag: EFlag) -> (held: bool)
        ensures
            held == self.flagged(flag),
    {
        self.get_element().has_flag(flag)
    }

    /// Exchanges vertical velocity with `particle2` in an elastic collision.
    pub fn elastic_collide_y(&mut self, particle2: &mut Tile)
        ensures
            *final(self) == old(self).after_elastic_y(*old(particle2)),
            *final(particle2) == old(particle2).after_elastic_y(*old(self)),
    {
        let v1 = self.velocity.y;
        let v2 = particle2.velocity.y;
        let m1 = self.get_element().mass;
        let m2 = particle2.get_element().mass;
        let (damped1, damped2) = elastic_collide(v1, v2, m1, m2);
        let (whole1, whole2) = elastic_exchange(v1, v2, m1, m2);
        self.velocity.y = if self.has_flag(PERFECT_RESTITUTION) {
            whole1
        } else {
            damped1
        };
        particle2.velocity.y = if particle2.has_flag(PERFECT_RESTITUTION) {
            whole2
        } else {
            damped2
        };
    }

    /// Exchanges horizontal velocity with `particle2` in an elastic collision.
    pub fn elastic_collide_x(&mut self, particle2: &mut Tile)
        ensures
            *final(self) == old(self).after_elastic_x(*old(particle2)),
            *final(particle2) == old(particle2).after_elastic_x(*old(self)),
    {
        let v1 = self.velocity.x;
        let v2 = particle2.velocity.x;
        let m1 = self.get_element().mass;
        let m2 = particle2.get_element().mass;
        let (damped1, damped2) = elastic_collide(v1, v2, m1, m2);
        let (whole1, whole2) = elastic_exchange(v1, v2, m1, m2);
        self.velocity.x = if self.has_flag(PERFECT_RESTITUTION) {
            whole1
        } else {
            damped1
        };
        particle2.velocity.x = if particle2.has_flag(PERFECT_RESTITUTION) {
            whole2
        } else {
            damped2
        };
    }

    /// Bounces horizontally off a fixed tile.
    pub fn reflect_velocity_x(&mut self)
        ensures
            *final(self) == old(self).after_reflect_x(),
    {
        if self.has_flag(PERFECT_RESTITUTION) {
            self.velocity.x = clamp_convert(-(self.velocity.x as i32));
        } else {
            self.velocity.x = (-(self.velocity.x as i32) / 2) as i8;
        }
    }

    /// Bounces vertically off a fixed tile.
    pub fn reflect_velocity_y(&mut self)
        ensures
            *final(self) == old(self).after_reflect_y(),
    {
        if self.has_flag(PERFECT_RESTITUTION) {
            self.velocity.y = clamp_convert(-(self.velocity.y as i32));
        } else {
            self.velocity.y = (-(self.velocity.y as i32) / 2) as i8;
        }
    }
}

/// What is staged stays out of sight: a tile with a staged state shows
/// readers the element and info that it showed before, and shows the staged
/// state once it is committed.
pub proof fn lemma_staged_state_is_hidden(tile: Tile, state: ElementState)
    ensures
        tile.with_staged(state).id() == tile.id(),
        tile.with_staged(state).info() == tile.info(),
        tile.with_staged(state).element_data.current == tile.element_data.current,
        tile.with_staged(state).committed().element_data.current == state,
        tile.with_staged(state).committed().element_data.staged == state,
{
}

} // verus!
