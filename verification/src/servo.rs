//! Acceleration-limited motion control for one axis: per-tick advancement
//! of the current angle toward the target angle under a trapezoidal
//! velocity profile.

use vstd::prelude::*;

verus! {

use crate::EPSILON;
use crate::MAX_TARGET;
use crate::MAX_VELOCITY_LIMIT;
use crate::angle::abs_spec;
use crate::angle::is_normalized;
use crate::angle::norm;
use crate::angle::wrap_once;

/// Positions the elevation axis can ever reach: commandable targets plus
/// the worst-case coasting excursion of a moving axis.
pub const MAX_POSITION: i64 = 30_000_000_000;

/// Clamp into a symmetric interval.
pub open spec fn clamp_spec(x: int, lo: int, hi: int) -> int {
    if x < lo {
        lo
    } else if x > hi {
        hi
    } else {
        x
    }
}

/// Kinematic stopping distance of velocity `v` under deceleration `a`.
pub open spec fn stop_distance(v: int, a: int) -> int {
    (v * v) / (2 * a)
}

/// The velocity the controller selects for the coming tick, given the
/// (wrapped, for azimuth) difference `d` to the target. Only meaningful
/// when `abs_spec(d) >= EPSILON`; nearer differences snap instead.
pub open spec fn next_velocity(d: int, v: int, a: int, vm: int) -> int {
    let dir: int = if d > 0 {
        1
    } else {
        -1
    };
    if abs_spec(d) > stop_distance(v, a) {
        clamp_spec(v + dir * a, -vm, vm)
    } else {
        let w = v - dir * a;
        if w * dir < 0 {
            0
        } else {
            w
        }
    }
}

/// One tick of one axis: the new current angle and the new velocity.
/// With `wrap` the difference is normalized first (shortest rotation)
/// and the resulting angle is normalized again; this is the azimuth
/// behaviour. Without `wrap` this is the elevation behaviour.
pub open spec fn axis_step(c: int, t: int, v: int, a: int, vm: int, wrap: bool) -> (int, int) {
    let d = if wrap {
        norm(t - c)
    } else {
        t - c
    };
    if abs_spec(d) < EPSILON {
        (t, 0)
    } else {
        let nv = next_velocity(d, v, a, vm);
        let nc = if wrap {
            norm(c + nv)
        } else {
            c + nv
        };
        (nc, nv)
    }
}

/// Well-formed axis parameters: a positive acceleration no larger than
/// the velocity ceiling, within the configurable limit.
pub open spec fn params_ok(a: int, vm: int) -> bool {
    1 <= a <= vm <= MAX_VELOCITY_LIMIT
}

/// Advance one axis by one tick.
///
/// The result equals `axis_step` exactly. The velocity clauses state the
/// configured safety bounds: the new velocity never exceeds the ceiling,
/// and it either is a controlled stop at exactly zero or differs from the
/// previous velocity by at most one acceleration increment.
pub fn update(current: i64, target: i64, velocity: i64, acceleration: i64, max_velocity: i64, wrap:
    bool) -> (r: (i64, i64))
    requires
        params_ok(acceleration as int, max_velocity as int),
        -(max_velocity as int) <= velocity <= max_velocity,
        wrap ==> is_normalized(current as int) && is_normalized(target as int),
        !wrap ==> -MAX_TARGET <= target <= MAX_TARGET && -MAX_POSITION <= current <= MAX_POSITION,
    ensures
        (r.0 as int, r.1 as int) == axis_step(
            current as int,
            target as int,
            velocity as int,
            acceleration as int,
            max_velocity as int,
            wrap,
        ),
        -(max_velocity as int) <= r.1 <= max_velocity,
        r.1 == 0 || abs_spec(r.1 - velocity) <= acceleration,
        wrap ==> is_normalized(r.0 as int),
        !wrap ==> -MAX_POSITION - MAX_VELOCITY_LIMIT <= r.0 <= MAX_POSITION + MAX_VELOCITY_LIMIT,
{
    let d = if wrap {
        wrap_once(target - current)
    } else {
        target - current
    };
    let d_abs = if d >= 0 {
        d
    } else {
        -d
    };
    if d_abs < EPSILON {
        return (target, 0);
    }
    let dir: i64 = if d > 0 {
        1
    } else {
        -1
    };
    proof {
        lemma_square_bound(velocity as int, max_velocity as int);
    }
    let stop = (velocity * velocity) / (2 * acceleration);
    let mut v = velocity;
    if d_abs > stop {
        v = v + dir * acceleration;
        if v > max_velocity {
            v = max_velocity;
        }
        if v < -max_velocity {
            v = -max_velocity;
        }
    } else {
        v = v - dir * acceleration;
        if v * dir < 0 {
            v = 0;
        }
    }
    let nc = if wrap {
        wrap_once(current + v)
    } else {
        current + v
    };
    (nc, v)
}

/// A velocity within the ceiling has a square within the ceiling's square.
proof fn lemma_square_bound(v: int, vm: int) by (nonlinear_arith)
    requires
        -vm <= v <= vm,
        0 <= vm <= MAX_VELOCITY_LIMIT,
    ensures
        0 <= v * v <= vm * vm,
        v * v <= MAX_VELOCITY_LIMIT * MAX_VELOCITY_LIMIT,
{
}


/// The controller never lets the magnitude of the velocity grow past the
/// ceiling, whatever branch it takes.
pub proof fn lemma_next_velocity_bounds(d: int, v: int, a: int, vm: int)
    requires
        params_ok(a, vm),
        -vm <= v <= vm,
    ensures
        -vm <= next_velocity(d, v, a, vm) <= vm,
{
    let dir: int = if d > 0 { 1 } else { -1 };
    if abs_spec(d) <= stop_distance(v, a) {
        let w = v - dir * a;
        assert(w * 1 == w && w * -1 == -w) by (nonlinear_arith);
    }
}

/// Kinetic budget: how much scaled position headroom the axis may use,
/// counting both where it is and what its motion can still add.
pub open spec fn kinetic_bound(a: int, vm: int) -> int {
    a * (MAX_TARGET + 2 * vm) + vm * vm + a
}

/// The largest position the elevation axis can reach: every commandable
/// target plus the worst-case coasting excursion.
pub open spec fn env_ceiling(vm: int) -> int {
    MAX_TARGET + 2 * vm + vm * vm + 1
}

/// Reachability envelope of the unwrapped axis: the scaled position is
/// bounded outright, and an axis moving toward either end has already
/// committed enough of its kinetic budget that it cannot leave the
/// envelope before it can be brought to rest.
pub open spec fn envelope(c: int, v: int, a: int, vm: int) -> bool {
    &&& a * c <= kinetic_bound(a, vm)
    &&& -(a * c) <= kinetic_bound(a, vm)
    &&& (v >= 0 ==> a * c + v * (vm + a) <= kinetic_bound(a, vm))
    &&& (v <= 0 ==> -(a * c) + (-v) * (vm + a) <= kinetic_bound(a, vm))
}

/// The envelope keeps the position within the range the controller
/// accepts.
pub proof fn lemma_envelope_position_bound(c: int, v: int, a: int, vm: int)
    requires
        params_ok(a, vm),
        envelope(c, v, a, vm),
    ensures
        -MAX_POSITION <= c <= MAX_POSITION,
{
    assert(-MAX_POSITION <= c <= MAX_POSITION) by (nonlinear_arith)
        requires
            params_ok(a, vm),
            a * c <= kinetic_bound(a, vm),
            -(a * c) <= kinetic_bound(a, vm),
    ;
}

/// The envelope is symmetric under mirroring the state.
pub proof fn lemma_envelope_symmetric(c: int, v: int, a: int, vm: int)
    requires
        envelope(c, v, a, vm),
    ensures
        envelope(-c, -v, a, vm),
{
    assert(a * (-c) == -(a * c) && (-(-v)) * (vm + a) == v * (vm + a) && (-v) * (vm + a) == -(v
        * (vm + a))) by (nonlinear_arith);
}

/// The unwrapped axis step is symmetric under mirroring the whole state.
pub proof fn lemma_axis_step_symmetric(c: int, t: int, v: int, a: int, vm: int)
    requires
        params_ok(a, vm),
    ensures
        axis_step(-c, -t, -v, a, vm, false) == (
            -axis_step(c, t, v, a, vm, false).0,
            -axis_step(c, t, v, a, vm, false).1,
        ),
{
    let d = t - c;
    if abs_spec(d) < EPSILON {
    } else {
        assert((-v) * (-v) == v * v) by (nonlinear_arith);
        let dir: int = if d > 0 { 1 } else { -1 };
        if abs_spec(d) > stop_distance(v, a) {
        } else {
            let w = v - dir * a;
            assert((-w) * (-dir) == w * dir) by (nonlinear_arith);
        }
    }
}

/// One tick keeps the unwrapped axis inside its reachability envelope.
pub proof fn lemma_envelope_step(c: int, t: int, v: int, a: int, vm: int)
    requires
        params_ok(a, vm),
        -vm <= v <= vm,
        -MAX_TARGET <= t <= MAX_TARGET,
        envelope(c, v, a, vm),
    ensures
        envelope(axis_step(c, t, v, a, vm, false).0, axis_step(c, t, v, a, vm, false).1, a, vm),
{
    let d = t - c;
    if abs_spec(d) < EPSILON {
        lemma_env_snap(t, a, vm);
    } else if d > 0 {
        lemma_env_forward(c, t, v, a, vm);
    } else {
        lemma_envelope_symmetric(c, v, a, vm);
        lemma_axis_step_symmetric(c, t, v, a, vm);
        lemma_env_forward(-c, -t, -v, a, vm);
        let nc = axis_step(c, t, v, a, vm, false).0;
        let nv = axis_step(c, t, v, a, vm, false).1;
        lemma_envelope_symmetric(-nc, -nv, a, vm);
    }
}

/// Any commandable position at rest lies inside the envelope.
pub proof fn lemma_env_snap(t: int, a: int, vm: int)
    requires
        params_ok(a, vm),
        -MAX_TARGET <= t <= MAX_TARGET,
    ensures
        envelope(t, 0, a, vm),
{
    assert(a * t <= kinetic_bound(a, vm) && -(a * t) <= kinetic_bound(a, vm)) by (nonlinear_arith)
        requires
            params_ok(a, vm),
            -MAX_TARGET <= t <= MAX_TARGET,
    ;
}

/// Envelope preservation for a tick whose target lies ahead of the
/// current position.
proof fn lemma_env_forward(c: int, t: int, v: int, a: int, vm: int)
    requires
        params_ok(a, vm),
        -vm <= v <= vm,
        -MAX_TARGET <= t <= MAX_TARGET,
        envelope(c, v, a, vm),
        t - c >= EPSILON,
    ensures
        envelope(axis_step(c, t, v, a, vm, false).0, axis_step(c, t, v, a, vm, false).1, a, vm),
{
    let nv = next_velocity(t - c, v, a, vm);
    let nc = c + nv;
    lemma_next_velocity_bounds(t - c, v, a, vm);
    assert(axis_step(c, t, v, a, vm, false) == (nc, nv));
    if nv > 0 {
        if nc <= t {
            assert(a * nc + nv * (vm + a) <= kinetic_bound(a, vm)) by (nonlinear_arith)
                requires
                    params_ok(a, vm),
                    nc <= t <= MAX_TARGET,
                    0 < nv <= vm,
            ;
        } else {
            assert(a * nc + nv * (vm + a) <= kinetic_bound(a, vm)) by (nonlinear_arith)
                requires
                    params_ok(a, vm),
                    c < t <= MAX_TARGET,
                    nc == c + nv,
                    0 < nv <= vm,
            ;
        }
        assert(a * nc <= kinetic_bound(a, vm) && -(a * nc) <= kinetic_bound(a, vm))
            by (nonlinear_arith)
            requires
                params_ok(a, vm),
                0 < nv <= vm,
                a * nc + nv * (vm + a) <= kinetic_bound(a, vm),
                nc == c + nv,
                -(a * c) <= kinetic_bound(a, vm),
        ;
    } else if nv < 0 {
        assert(v < 0 && nv == v + a) by {
            assert(v - 1 * a >= 0 || (v - 1 * a) * 1 < 0);
        }
        assert(-(a * nc) + (-nv) * (vm + a) <= kinetic_bound(a, vm) && a * nc <= kinetic_bound(
            a,
            vm,
        ) && -(a * nc) <= kinetic_bound(a, vm)) by (nonlinear_arith)
            requires
                params_ok(a, vm),
                -vm <= v < 0,
                nv == v + a,
                nv < 0,
                nc == c + nv,
                a * c <= kinetic_bound(a, vm),
                -(a * c) + (-v) * (vm + a) <= kinetic_bound(a, vm),
        ;
    } else {
        assert(nc == c);
    }
}

/// The axis state after `n` ticks with a fixed target.
pub open spec fn axis_iter(c: int, t: int, v: int, a: int, vm: int, wrap: bool, n: nat) -> (
    int,
    int,
)
    decreases n,
{
    if n == 0 {
        (c, v)
    } else {
        let s = axis_step(c, t, v, a, vm, wrap);
        axis_iter(s.0, t, s.1, a, vm, wrap, (n - 1) as nat)
    }
}

/// Iteration can also be unrolled from the far end.
pub proof fn lemma_axis_iter_unroll_end(c: int, t: int, v: int, a: int, vm: int, wrap: bool, n: nat)
    requires
        n >= 1,
    ensures
        ({
            let p = axis_iter(c, t, v, a, vm, wrap, (n - 1) as nat);
            axis_iter(c, t, v, a, vm, wrap, n) == axis_step(p.0, t, p.1, a, vm, wrap)
        }),
    decreases n,
{
    let s = axis_step(c, t, v, a, vm, wrap);
    assert(axis_iter(c, t, v, a, vm, wrap, n) == axis_iter(s.0, t, s.1, a, vm, wrap, (n - 1) as nat));
    if n > 1 {
        lemma_axis_iter_unroll_end(s.0, t, s.1, a, vm, wrap, (n - 1) as nat);
        assert(axis_iter(c, t, v, a, vm, wrap, (n - 1) as nat) == axis_iter(
            s.0,
            t,
            s.1,
            a,
            vm,
            wrap,
            (n - 2) as nat,
        ));
    } else {
        assert(axis_iter(s.0, t, s.1, a, vm, wrap, 0) == (s.0, s.1));
    }
}

/// The target at rest is a fixed point of the per-tick law.
pub proof fn lemma_axis_fixed_point(t: int, a: int, vm: int, wrap: bool)
    ensures
        axis_step(t, t, 0, a, vm, wrap) == (t, 0int),
{
    if wrap {
        crate::angle::lemma_norm_identity(0);
    }
}

/// Once the axis has arrived at the target at rest, every later tick
/// leaves it there.
pub proof fn lemma_axis_stays(
    c: int,
    t: int,
    v: int,
    a: int,
    vm: int,
    wrap: bool,
    n: nat,
    m: nat,
)
    requires
        axis_iter(c, t, v, a, vm, wrap, n) == (t, 0int),
        n <= m,
    ensures
        axis_iter(c, t, v, a, vm, wrap, m) == (t, 0int),
    decreases m - n,
{
    if m > n {
        lemma_axis_stays(c, t, v, a, vm, wrap, n, (m - 1) as nat);
        lemma_axis_iter_unroll_end(c, t, v, a, vm, wrap, m);
        lemma_axis_fixed_point(t, a, vm, wrap);
    }
}

/// Equal angles modulo whole turns have equal normalizations.
proof fn lemma_norm_eq_of_congruent(x: int, y: int)
    requires
        (x - y) % (crate::FULL_TURN as int) == 0,
    ensures
        crate::angle::norm(x) == crate::angle::norm(y),
{
    crate::angle::lemma_norm_congruent(x);
    crate::angle::lemma_norm_congruent(y);
    crate::angle::lemma_norm_range(x);
    crate::angle::lemma_norm_range(y);
    let f = crate::FULL_TURN as int;
    let dx = crate::angle::norm(x) - x;
    let dy = crate::angle::norm(y) - y;
    assert((dx - dy + (x - y)) % f == 0) by {
        vstd::arithmetic::div_mod::lemma_add_mod_noop(dx - dy, x - y, f);
        vstd::arithmetic::div_mod::lemma_sub_mod_noop(dx, dy, f);
    }
    let diff = crate::angle::norm(x) - crate::angle::norm(y);
    assert(diff % f == 0);
    assert(-f < diff < f);
    if diff != 0 {
        vstd::arithmetic::div_mod::lemma_small_mod(diff as nat, f as nat);
        vstd::arithmetic::div_mod::lemma_mod_add_multiples_vanish(diff, f);
        vstd::arithmetic::div_mod::lemma_small_mod((diff + f) as nat, f as nat);
        assert(false);
    }
}

/// After one tick the (wrapped) difference to the target is the old
/// difference less the distance moved.
proof fn lemma_axis_diff_after_step(c: int, t: int, nv: int, wrap: bool)
    requires
        wrap ==> crate::angle::is_normalized(c) && crate::angle::is_normalized(t),
        wrap ==> -3 * (crate::HALF_TURN as int) < crate::angle::norm(t - c) - nv <= 3 * (
        crate::HALF_TURN as int),
    ensures
        ({
            let d = if wrap {
                crate::angle::norm(t - c)
            } else {
                t - c
            };
            let nc = if wrap {
                crate::angle::norm(c + nv)
            } else {
                c + nv
            };
            let d2 = if wrap {
                crate::angle::norm(t - nc)
            } else {
                t - nc
            };
            d2 == (if wrap {
                crate::angle::norm(d - nv)
            } else {
                d - nv
            })
        }),
{
    if wrap {
        let d = crate::angle::norm(t - c);
        let nc = crate::angle::norm(c + nv);
        let f = crate::FULL_TURN as int;
        crate::angle::lemma_norm_congruent(t - c);
        crate::angle::lemma_norm_congruent(c + nv);
        assert(((t - nc) - (d - nv)) % f == 0) by {
            let k1 = d - (t - c);
            let k2 = nc - (c + nv);
            assert((t - nc) - (d - nv) == -k1 - k2);
            vstd::arithmetic::div_mod::lemma_add_mod_noop(-k1, -k2, f);
            vstd::arithmetic::div_mod::lemma_mod_neg_neg(k1, f);
            vstd::arithmetic::div_mod::lemma_mod_neg_neg(k2, f);
        }
        lemma_norm_eq_of_congruent(t - nc, d - nv);
    }
}


/// Moving toward a target at least a snap window ahead, the controller
/// always picks a forward step between one unit and the ceiling.
proof fn lemma_aligned_velocity_pos(d: int, v: int, a: int, vm: int)
    requires
        params_ok(a, vm),
        a < 2 * EPSILON,
        0 <= v <= vm,
        d >= EPSILON,
    ensures
        1 <= next_velocity(d, v, a, vm) <= vm,
{
    let stop = stop_distance(v, a);
    assert(v * v >= 0) by (nonlinear_arith);
    if d > stop {
    } else {
        assert(v * v >= 2 * a * EPSILON) by (nonlinear_arith)
            requires
                stop == (v * v) / (2 * a),
                stop >= EPSILON,
                a >= 1,
                v * v >= 0,
        ;
        assert(v > a) by (nonlinear_arith)
            requires
                v * v >= 2 * a * EPSILON,
                a < 2 * EPSILON,
                0 <= v,
                1 <= a,
        ;
        let w = v - 1 * a;
        assert(w * 1 == w) by (nonlinear_arith);
    }
}

/// From any starting state within the velocity ceiling, the axis
/// reaches the target at rest after finitely many ticks, provided one
/// acceleration increment is below twice the snap window. A velocity
/// that points away from the target is first braked to a stop or
/// carried across the wrap seam; each later approach either arrives or
/// comes to rest strictly nearer than the rest point it started from.
pub proof fn lemma_axis_converges(c: int, t: int, v: int, a: int, vm: int, wrap: bool)
    requires
        params_ok(a, vm),
        a < 2 * EPSILON,
        -vm <= v <= vm,
        wrap ==> crate::angle::is_normalized(c) && crate::angle::is_normalized(t),
    ensures
        exists|n: nat| axis_iter(c, t, v, a, vm, wrap, n) == (t, 0int),
    decreases abs_spec(v),
{
    let d = if wrap {
        crate::angle::norm(t - c)
    } else {
        t - c
    };
    if wrap {
        crate::angle::lemma_norm_range(t - c);
    }
    if abs_spec(d) < EPSILON || (d > 0 && v >= 0) || (d < 0 && v <= 0) {
        lemma_axis_settles_aligned(c, t, v, a, vm, wrap);
    } else {
        // velocity points away from the target
        let dir: int = if d > 0 {
            1
        } else {
            -1
        };
        let stop = stop_distance(v, a);
        let nv = next_velocity(d, v, a, vm);
        assert(v * v >= 0) by (nonlinear_arith);
        assert(1 * a == a) by (nonlinear_arith);
        assert((-1) * a == -a) by (nonlinear_arith);
        if abs_spec(d) > stop {
            // the controller sheds one increment of the outbound
            // velocity; the clamp bounds are out of reach
            assert(nv == v + dir * a);
        } else {
            // braking branch: the velocity is zeroed outright
            assert(nv == 0) by {
                if d > 0 {
                    let w = v - 1 * a;
                    assert(w * 1 == w) by (nonlinear_arith);
                } else {
                    let w = v - (-1) * a;
                    assert(w * -1 == -w) by (nonlinear_arith);
                }
            }
        }
        let nc = if wrap {
            crate::angle::norm(c + nv)
        } else {
            c + nv
        };
        if wrap {
            crate::angle::lemma_norm_range(c + nv);
            lemma_axis_diff_after_step(c, t, nv, wrap);
        }
        assert(axis_step(c, t, v, a, vm, wrap) == (nc, nv));
        if (d > 0 && nv < 0) || (d < 0 && nv > 0) {
            // still outbound, one increment slower
            assert(abs_spec(nv) < abs_spec(v));
            lemma_axis_converges(nc, t, nv, a, vm, wrap);
        } else {
            // stopped, or turned toward the target
            let d2u = d - nv;
            if wrap {
                crate::angle::lemma_norm_identity(d2u);
            }
            lemma_axis_settles_aligned(nc, t, nv, a, vm, wrap);
        }
        let n0 = choose|n: nat| axis_iter(nc, t, nv, a, vm, wrap, n) == (t, 0int);
        assert(axis_iter(c, t, v, a, vm, wrap, n0 + 1) == axis_iter(nc, t, nv, a, vm, wrap, n0));
        assert(axis_iter(c, t, v, a, vm, wrap, n0 + 1) == (t, 0int));
    }
}


/// Approaching a target from below with an inbound velocity slow
/// enough that one more acceleration increment stays below twice the
/// snap window, one tick makes forward progress and never carries the
/// axis past the target by as much as the snap window.
pub proof fn lemma_axis_no_overshoot(c: int, t: int, v: int, a: int, vm: int)
    requires
        params_ok(a, vm),
        a < 2 * EPSILON,
        v + a < 2 * EPSILON,
        t - c >= EPSILON,
        0 <= v <= vm,
    ensures
        axis_step(c, t, v, a, vm, false).0 > c,
        axis_step(c, t, v, a, vm, false).0 < t + EPSILON,
{
    lemma_aligned_velocity_pos(t - c, v, a, vm);
}


/// The axis step applied again after `m` ticks: iteration splits at
/// any point.
pub proof fn lemma_axis_iter_add(c: int, t: int, v: int, a: int, vm: int, wrap: bool, m: nat, n: nat)
    ensures
        ({
            let p = axis_iter(c, t, v, a, vm, wrap, m);
            axis_iter(c, t, v, a, vm, wrap, m + n) == axis_iter(p.0, t, p.1, a, vm, wrap, n)
        }),
    decreases m,
{
    if m > 0 {
        let s = axis_step(c, t, v, a, vm, wrap);
        assert(axis_iter(c, t, v, a, vm, wrap, m + n) == axis_iter(
            s.0,
            t,
            s.1,
            a,
            vm,
            wrap,
            ((m + n) - 1) as nat,
        ));
        lemma_axis_iter_add(s.0, t, s.1, a, vm, wrap, (m - 1) as nat, n);
    }
}

/// The controller's velocity choice mirrors with the whole state.
proof fn lemma_next_velocity_symmetric(d: int, v: int, a: int, vm: int)
    requires
        params_ok(a, vm),
        abs_spec(d) >= EPSILON,
    ensures
        next_velocity(-d, -v, a, vm) == -next_velocity(d, v, a, vm),
{
    lemma_axis_step_symmetric(0, d, v, a, vm);
    assert(axis_step(0, d, v, a, vm, false) == (
        0 + next_velocity(d, v, a, vm),
        next_velocity(d, v, a, vm),
    ));
}

/// Bookkeeping of one approach toward the target from a rest point:
/// the distance still to cover never exceeds the anchor distance, the
/// inbound speed has consumed matching kinetic budget, and the speed is
/// a whole number of acceleration increments away from rest or from a
/// recorded brush with the velocity ceiling.
spec fn approach_inv(x: int, u: int, a: int, vm: int, dcap: int) -> bool {
    &&& EPSILON <= x <= dcap
    &&& 0 <= u <= vm
    &&& u * (u + a) <= 2 * a * (dcap - x)
    &&& (u % a == 0 || ((vm - u) % a == 0 && vm * (vm + a) <= 2 * a * dcap))
}

/// The quadratic that excludes crossings at the velocity ceiling.
proof fn lemma_ceiling_quadratic(vm: int, a: int)
    requires
        1 <= a < 2 * EPSILON,
        vm >= 1,
    ensures
        vm * (vm + a) > 2 * a * (vm - EPSILON),
{
    assert((2 * vm - a) * (2 * vm - a) >= 0) by (nonlinear_arith);
    assert(4 * (vm * (vm + a) - 2 * a * (vm - EPSILON)) == (2 * vm - a) * (2 * vm - a) + 8 * a
        * (vm + EPSILON) - a * a - 8 * a * vm) by (nonlinear_arith);
    assert(8 * a * (vm + EPSILON) - a * a - 8 * a * vm == 8 * a * EPSILON - a * a)
        by (nonlinear_arith);
    assert(8 * a * EPSILON - a * a > 0) by (nonlinear_arith)
        requires
            1 <= a < 2 * EPSILON,
    ;
}

/// One tick of an anchored approach: the step is forward, a step that
/// stays out of the snap window keeps the bookkeeping, and a step
/// across the target lands strictly nearer than the anchor with little
/// enough speed to stop at once.
proof fn lemma_approach_step(x: int, u: int, a: int, vm: int, dcap: int)
    requires
        params_ok(a, vm),
        a < 2 * EPSILON,
        approach_inv(x, u, a, vm, dcap),
    ensures
        ({
            let uc = next_velocity(x, u, a, vm);
            &&& 1 <= uc <= vm
            &&& x - uc >= EPSILON ==> approach_inv(x - uc, uc, a, vm, dcap)
            &&& uc - x >= EPSILON ==> uc - x < dcap && 2 * a * (uc - x) <= uc * uc
        }),
{
    lemma_aligned_velocity_pos(x, u, a, vm);
    let uc = next_velocity(x, u, a, vm);
    let stop = stop_distance(u, a);
    assert(u * u >= 0) by (nonlinear_arith);
    if uc - x >= EPSILON {
        // a crossing's speed stops within the landing distance
        assert(2 * a * (uc - x) <= uc * uc) by (nonlinear_arith)
            requires
                x >= EPSILON,
                a < 2 * EPSILON,
                a >= 1,
                uc >= 1,
        ;
    }
    if x > stop {
        // accelerating branch
        assert(u + 1 * a == u + a) by (nonlinear_arith);
        if u + a <= vm {
            assert(uc == u + a);
        } else {
            assert(uc == vm);
        }
        if x - uc >= EPSILON {
            // bookkeeping after a forward step
            if uc == u + a {
                assert(uc * (uc + a) <= 2 * a * (dcap - (x - uc))) by (nonlinear_arith)
                    requires
                        uc == u + a,
                        u * (u + a) <= 2 * a * (dcap - x),
                        a >= 1,
                ;
                vstd::arithmetic::div_mod::lemma_mod_add_multiples_vanish(u, a);
                vstd::arithmetic::div_mod::lemma_mod_sub_multiples_vanish(vm - u, a);
            } else {
                assert((vm - a + 1) * (vm + 1) <= u * (u + a)) by (nonlinear_arith)
                    requires
                        vm < u + a,
                        u <= vm,
                        a >= 1,
                        vm >= a,
                ;
                assert(vm * (vm + a) <= (vm - a + 1) * (vm + 1) + 2 * a * vm)
                    by (nonlinear_arith)
                    requires
                        vm >= a >= 1,
                ;
                assert(uc * (uc + a) <= 2 * a * (dcap - (x - uc))) by (nonlinear_arith)
                    requires
                        uc == vm,
                        (vm - a + 1) * (vm + 1) <= u * (u + a),
                        vm * (vm + a) <= (vm - a + 1) * (vm + 1) + 2 * a * vm,
                        u * (u + a) <= 2 * a * (dcap - x),
                ;
                assert(vm * (vm + a) <= 2 * a * dcap) by (nonlinear_arith)
                    requires
                        vm * (vm + a) <= 2 * a * (dcap - (x - vm)),
                        x - vm >= EPSILON,
                        EPSILON >= 1,
                        a >= 1,
                ;
                vstd::arithmetic::div_mod::lemma_small_mod(0nat, a as nat);
            }
        }
        if uc - x >= EPSILON {
            // the landing stays strictly nearer than the anchor
            if u == 0 {
                assert(uc <= 0 + a);
                assert(uc - x < dcap);
            } else if u % a == 0 {
                let k = u / a;
                vstd::arithmetic::div_mod::lemma_fundamental_div_mod(u, a);
                assert(u == a * k);
                assert(k >= 1) by (nonlinear_arith)
                    requires
                        u == a * k,
                        u >= 1,
                        a >= 1,
                ;
                lemma_crossing_stays_near_multiple(x, u, a, vm, dcap, k, uc);
            } else if u == vm {
                assert(uc == vm);
                assert((vm - u) % a == 0) by {
                    vstd::arithmetic::div_mod::lemma_small_mod(0nat, a as nat);
                }
                assert(vm * (vm + a) <= 2 * a * dcap);
                lemma_ceiling_quadratic(vm, a);
                assert(uc - x < dcap) by (nonlinear_arith)
                    requires
                        vm * (vm + a) <= 2 * a * dcap,
                        vm * (vm + a) > 2 * a * (vm - EPSILON),
                        uc <= vm,
                        x >= EPSILON,
                        a >= 1,
                ;
            } else {
                // a whole number of increments below the recorded
                // ceiling brush
                assert((vm - u) % a == 0 && vm * (vm + a) <= 2 * a * dcap);
                lemma_ceiling_quadratic(vm, a);
                assert(uc - x < dcap) by (nonlinear_arith)
                    requires
                        vm * (vm + a) <= 2 * a * dcap,
                        vm * (vm + a) > 2 * a * (vm - EPSILON),
                        uc <= vm,
                        x >= EPSILON,
                        a >= 1,
                ;
            }
        }
    } else {
        // braking branch: the speed exceeds one increment, so the step
        // is still forward
        assert(u * u >= 2 * a * EPSILON) by (nonlinear_arith)
            requires
                stop == (u * u) / (2 * a),
                stop >= EPSILON,
                a >= 1,
                u * u >= 0,
        ;
        assert(u > a) by (nonlinear_arith)
            requires
                u * u >= 2 * a * EPSILON,
                a < 2 * EPSILON,
                0 <= u,
                1 <= a,
        ;
        assert(uc == u - a) by {
            let w = u - 1 * a;
            assert(w * 1 == w && 1 * a == a) by (nonlinear_arith);
        }
        if x - uc >= EPSILON {
            assert(uc * (uc + a) <= 2 * a * (dcap - (x - uc))) by (nonlinear_arith)
                requires
                    uc == u - a,
                    u > a,
                    u * (u + a) <= 2 * a * (dcap - x),
                    a >= 1,
            ;
            vstd::arithmetic::div_mod::lemma_mod_sub_multiples_vanish(u, a);
            vstd::arithmetic::div_mod::lemma_mod_add_multiples_vanish(vm - u, a);
        }
        if uc - x >= EPSILON {
            assert(uc - x < dcap) by (nonlinear_arith)
                requires
                    uc == u - a,
                    u * (u + a) <= 2 * a * (dcap - x),
                    x >= EPSILON,
                    a >= 1,
                    EPSILON >= 1,
            ;
        }
    }
}

/// A crossing from a speed that is a whole number of increments lands
/// strictly nearer than the anchor.
proof fn lemma_crossing_stays_near_multiple(
    x: int,
    u: int,
    a: int,
    vm: int,
    dcap: int,
    k: int,
    uc: int,
)
    requires
        1 <= a < 2 * EPSILON,
        a <= vm,
        u == a * k,
        k >= 1,
        u <= vm,
        uc == if u + a <= vm {
            u + a
        } else {
            vm
        },
        u * (u + a) <= 2 * a * (dcap - x),
        x >= EPSILON,
    ensures
        uc - x < dcap,
{
    assert(u >= a) by (nonlinear_arith)
        requires
            u == a * k,
            k >= 1,
            a >= 1,
    ;
    if uc == u + a {
        assert(uc - x < dcap) by (nonlinear_arith)
            requires
                u >= a,
                uc == u + a,
                u * (u + a) <= 2 * a * (dcap - x),
                x >= EPSILON,
                a < 2 * EPSILON,
                a >= 1,
        ;
    } else {
        assert(uc == vm && vm < u + a);
        if k >= 2 {
            assert(u >= 2 * a) by (nonlinear_arith)
                requires
                    u == a * k,
                    k >= 2,
                    a >= 1,
            ;
            assert(uc - x < dcap) by (nonlinear_arith)
                requires
                    u >= 2 * a,
                    uc == vm,
                    u * (u + a) <= 2 * a * (dcap - x),
                    vm < u + a,
                    x >= EPSILON,
                    a >= 1,
                    EPSILON >= 1,
            ;
        } else {
            assert(k == 1);
            assert(u == a) by (nonlinear_arith)
                requires
                    u == a * k,
                    k == 1,
            ;
            assert(uc - x < dcap) by (nonlinear_arith)
                requires
                    u == a,
                    uc == vm,
                    u * (u + a) <= 2 * a * (dcap - x),
                    vm < u + a,
                    x >= EPSILON,
                    a < 2 * EPSILON,
                    a >= 1,
            ;
        }
    }
}


/// The (wrapped, for azimuth) difference from current angle to target.
pub open spec fn wrapped_diff(c: int, t: int, wrap: bool) -> int {
    if wrap {
        crate::angle::norm(t - c)
    } else {
        t - c
    }
}

/// A rest point short of the target: stopped, at least a snap window
/// away.
pub open spec fn resting(s: (int, int), t: int, wrap: bool) -> bool {
    &&& s.1 == 0
    &&& abs_spec(wrapped_diff(s.0, t, wrap)) >= EPSILON
    &&& (wrap ==> crate::angle::is_normalized(s.0))
}

/// Facts about one aligned tick, shared by the approach lemmas: the
/// wrapped difference shrinks by exactly the chosen speed, and a
/// crossing is followed one tick later by a full stop.
proof fn lemma_aligned_tick(c: int, t: int, v: int, a: int, vm: int, wrap: bool)
    requires
        params_ok(a, vm),
        a < 2 * EPSILON,
        -vm <= v <= vm,
        wrap ==> crate::angle::is_normalized(c) && crate::angle::is_normalized(t),
        abs_spec(wrapped_diff(c, t, wrap)) >= EPSILON,
        wrapped_diff(c, t, wrap) > 0 ==> v >= 0,
        wrapped_diff(c, t, wrap) < 0 ==> v <= 0,
    ensures
        ({
            let wd = wrapped_diff(c, t, wrap);
            let x = abs_spec(wd);
            let u = abs_spec(v);
            let uc = next_velocity(x, u, a, vm);
            let s1 = axis_step(c, t, v, a, vm, wrap);
            &&& 1 <= uc <= vm
            &&& uc == next_velocity(x, u, a, vm)
            &&& abs_spec(s1.1) == uc
            &&& s1.1 == (if wd > 0 {
                uc
            } else {
                -uc
            })
            &&& wrapped_diff(s1.0, t, wrap) == (if wd > 0 {
                wd - uc
            } else {
                wd + uc
            })
            &&& (wrap ==> crate::angle::is_normalized(s1.0))
            &&& (uc - x >= EPSILON ==> axis_iter(c, t, v, a, vm, wrap, 2) == (s1.0, 0int)
                && abs_spec(wrapped_diff(s1.0, t, wrap)) == uc - x)
        }),
{
    let wd = wrapped_diff(c, t, wrap);
    let x = abs_spec(wd);
    let u = abs_spec(v);
    let uc = next_velocity(x, u, a, vm);
    lemma_aligned_velocity_pos(x, u, a, vm);
    if wrap {
        crate::angle::lemma_norm_range(t - c);
    }
    let nv = next_velocity(wd, v, a, vm);
    if wd > 0 {
        assert(nv == uc);
    } else {
        lemma_next_velocity_symmetric(x, u, a, vm);
        assert(wd == -x && v == -u);
        assert(nv == -uc);
    }
    let nc = if wrap {
        crate::angle::norm(c + nv)
    } else {
        c + nv
    };
    assert(axis_step(c, t, v, a, vm, wrap) == (nc, nv));
    if wrap {
        crate::angle::lemma_norm_range(c + nv);
        lemma_axis_diff_after_step(c, t, nv, wrap);
        crate::angle::lemma_norm_identity(wd - nv);
    }
    let wd2 = wrapped_diff(nc, t, wrap);
    assert(wd2 == wd - nv);
    if uc - x >= EPSILON {
        // the step crossed the target and left the snap window; the
        // landing speed cannot cover its own stopping distance, so the
        // next tick brakes to a halt in place
        assert(2 * a * (uc - x) <= uc * uc) by (nonlinear_arith)
            requires
                x >= EPSILON,
                a < 2 * EPSILON,
                a >= 1,
                uc >= 1,
        ;
        let x2 = uc - x;
        assert(abs_spec(wd2) == x2);
        assert(stop_distance(uc, a) >= x2) by {
            vstd::arithmetic::div_mod::lemma_div_multiples_vanish(x2, 2 * a);
            vstd::arithmetic::div_mod::lemma_div_is_ordered(2 * a * x2, uc * uc, 2 * a);
        }
        assert(uc * uc == nv * nv) by (nonlinear_arith)
            requires
                nv == uc || nv == -uc,
        ;
        let nv2 = next_velocity(wd2, nv, a, vm);
        assert(nv2 == 0) by {
            assert(abs_spec(wd2) <= stop_distance(nv, a));
            if wd2 > 0 {
                let w = nv - 1 * a;
                assert(w * 1 == w && 1 * a == a) by (nonlinear_arith);
            } else {
                let w = nv - (-1) * a;
                assert(w * -1 == -w && (-1) * a == -a) by (nonlinear_arith);
            }
        }
        let nc2 = if wrap {
            crate::angle::norm(nc + 0)
        } else {
            nc + 0
        };
        if wrap {
            crate::angle::lemma_norm_identity(nc);
        }
        assert(nc2 == nc);
        assert(axis_step(nc, t, nv, a, vm, wrap) == (nc, 0int));
        assert(axis_iter(c, t, v, a, vm, wrap, 2) == axis_iter(nc, t, nv, a, vm, wrap, 1));
        assert(axis_iter(nc, t, nv, a, vm, wrap, 1) == axis_iter(nc, t, 0, a, vm, wrap, 0));
    }
}

/// An axis moving toward the target (or resting, or within the snap
/// window) reaches, in finitely many ticks, either the target at rest
/// or a full stop at least a snap window away.
proof fn lemma_first_approach(c: int, t: int, v: int, a: int, vm: int, wrap: bool)
    requires
        params_ok(a, vm),
        a < 2 * EPSILON,
        -vm <= v <= vm,
        wrap ==> crate::angle::is_normalized(c) && crate::angle::is_normalized(t),
        ({
            let wd = wrapped_diff(c, t, wrap);
            abs_spec(wd) < EPSILON || (wd > 0 && v >= 0) || (wd < 0 && v <= 0)
        }),
    ensures
        exists|n: nat|
            #[trigger] axis_iter(c, t, v, a, vm, wrap, n) == (t, 0int) || resting(
                axis_iter(c, t, v, a, vm, wrap, n),
                t,
                wrap,
            ),
    decreases abs_spec(wrapped_diff(c, t, wrap)),
{
    let wd = wrapped_diff(c, t, wrap);
    if wrap {
        crate::angle::lemma_norm_range(t - c);
    }
    if abs_spec(wd) < EPSILON {
        assert(axis_step(c, t, v, a, vm, wrap) == (t, 0int));
        assert(axis_iter(c, t, v, a, vm, wrap, 1) == axis_iter(t, t, 0, a, vm, wrap, 0));
        assert(axis_iter(c, t, v, a, vm, wrap, 1) == (t, 0int));
    } else {
        lemma_aligned_tick(c, t, v, a, vm, wrap);
        let x = abs_spec(wd);
        let u = abs_spec(v);
        let uc = next_velocity(x, u, a, vm);
        let s1 = axis_step(c, t, v, a, vm, wrap);
        if x - uc >= EPSILON {
            // still short of the target, strictly nearer
            lemma_first_approach(s1.0, t, s1.1, a, vm, wrap);
            let n0 = choose|n: nat|
                axis_iter(s1.0, t, s1.1, a, vm, wrap, n) == (t, 0int) || resting(
                    axis_iter(s1.0, t, s1.1, a, vm, wrap, n),
                    t,
                    wrap,
                );
            assert(axis_iter(c, t, v, a, vm, wrap, n0 + 1) == axis_iter(
                s1.0,
                t,
                s1.1,
                a,
                vm,
                wrap,
                n0,
            ));
        } else if uc - x >= EPSILON {
            // crossed and stopped one tick later
            assert(resting(axis_iter(c, t, v, a, vm, wrap, 2), t, wrap));
        } else {
            // landed inside the snap window; the next tick arrives
            assert(abs_spec(wrapped_diff(s1.0, t, wrap)) < EPSILON);
            assert(axis_step(s1.0, t, s1.1, a, vm, wrap) == (t, 0int));
            assert(axis_iter(c, t, v, a, vm, wrap, 2) == axis_iter(s1.0, t, s1.1, a, vm, wrap, 1));
            assert(axis_iter(s1.0, t, s1.1, a, vm, wrap, 1) == axis_iter(t, t, 0, a, vm, wrap, 0));
            assert(axis_iter(c, t, v, a, vm, wrap, 2) == (t, 0int));
        }
    }
}

/// An anchored approach from a rest point either arrives, or comes to
/// rest strictly nearer than its anchor.
proof fn lemma_anchored_approach(c: int, t: int, v: int, a: int, vm: int, wrap: bool, dcap: int)
    requires
        params_ok(a, vm),
        a < 2 * EPSILON,
        -vm <= v <= vm,
        wrap ==> crate::angle::is_normalized(c) && crate::angle::is_normalized(t),
        ({
            let wd = wrapped_diff(c, t, wrap);
            (wd > 0 ==> v >= 0) && (wd < 0 ==> v <= 0) && approach_inv(
                abs_spec(wd),
                abs_spec(v),
                a,
                vm,
                dcap,
            )
        }),
    ensures
        exists|n: nat|
            #[trigger] axis_iter(c, t, v, a, vm, wrap, n) == (t, 0int) || (resting(
                axis_iter(c, t, v, a, vm, wrap, n),
                t,
                wrap,
            ) && abs_spec(
                wrapped_diff(axis_iter(c, t, v, a, vm, wrap, n).0, t, wrap),
            ) < dcap),
    decreases abs_spec(wrapped_diff(c, t, wrap)),
{
    let wd = wrapped_diff(c, t, wrap);
    if wrap {
        crate::angle::lemma_norm_range(t - c);
    }
    lemma_aligned_tick(c, t, v, a, vm, wrap);
    lemma_approach_step(abs_spec(wd), abs_spec(v), a, vm, dcap);
    let x = abs_spec(wd);
    let u = abs_spec(v);
    let uc = next_velocity(x, u, a, vm);
    let s1 = axis_step(c, t, v, a, vm, wrap);
    if x - uc >= EPSILON {
        lemma_anchored_approach(s1.0, t, s1.1, a, vm, wrap, dcap);
        let n0 = choose|n: nat|
            axis_iter(s1.0, t, s1.1, a, vm, wrap, n) == (t, 0int) || (resting(
                axis_iter(s1.0, t, s1.1, a, vm, wrap, n),
                t,
                wrap,
            ) && abs_spec(
                wrapped_diff(axis_iter(s1.0, t, s1.1, a, vm, wrap, n).0, t, wrap),
            ) < dcap);
        assert(axis_iter(c, t, v, a, vm, wrap, n0 + 1) == axis_iter(
            s1.0,
            t,
            s1.1,
            a,
            vm,
            wrap,
            n0,
        ));
    } else if uc - x >= EPSILON {
        assert(resting(axis_iter(c, t, v, a, vm, wrap, 2), t, wrap));
        assert(abs_spec(wrapped_diff(axis_iter(c, t, v, a, vm, wrap, 2).0, t, wrap)) < dcap);
    } else {
        assert(abs_spec(wrapped_diff(s1.0, t, wrap)) < EPSILON);
        assert(axis_step(s1.0, t, s1.1, a, vm, wrap) == (t, 0int));
        assert(axis_iter(c, t, v, a, vm, wrap, 2) == axis_iter(s1.0, t, s1.1, a, vm, wrap, 1));
        assert(axis_iter(s1.0, t, s1.1, a, vm, wrap, 1) == axis_iter(t, t, 0, a, vm, wrap, 0));
        assert(axis_iter(c, t, v, a, vm, wrap, 2) == (t, 0int));
    }
}

/// From any rest point the axis arrives at the target at rest: each
/// approach either arrives or ends at a rest point strictly nearer.
proof fn lemma_rest_converges(c: int, t: int, a: int, vm: int, wrap: bool)
    requires
        params_ok(a, vm),
        a < 2 * EPSILON,
        wrap ==> crate::angle::is_normalized(c) && crate::angle::is_normalized(t),
    ensures
        exists|n: nat| axis_iter(c, t, 0, a, vm, wrap, n) == (t, 0int),
    decreases abs_spec(wrapped_diff(c, t, wrap)),
{
    let wd = wrapped_diff(c, t, wrap);
    if wrap {
        crate::angle::lemma_norm_range(t - c);
    }
    let x = abs_spec(wd);
    if x < EPSILON {
        assert(axis_step(c, t, 0, a, vm, wrap) == (t, 0int));
        assert(axis_iter(c, t, 0, a, vm, wrap, 1) == axis_iter(t, t, 0, a, vm, wrap, 0));
        assert(axis_iter(c, t, 0, a, vm, wrap, 1) == (t, 0int));
    } else {
        assert(approach_inv(x, 0, a, vm, x)) by {
            assert(0 * (0 + a) == 0) by (nonlinear_arith);
            vstd::arithmetic::div_mod::lemma_small_mod(0nat, a as nat);
        }
        lemma_anchored_approach(c, t, 0, a, vm, wrap, x);
        let n1 = choose|n: nat|
            axis_iter(c, t, 0, a, vm, wrap, n) == (t, 0int) || (resting(
                axis_iter(c, t, 0, a, vm, wrap, n),
                t,
                wrap,
            ) && abs_spec(wrapped_diff(axis_iter(c, t, 0, a, vm, wrap, n).0, t, wrap)) < x);
        let s = axis_iter(c, t, 0, a, vm, wrap, n1);
        if s == (t, 0int) {
        } else {
            lemma_rest_converges(s.0, t, a, vm, wrap);
            let n2 = choose|n: nat| axis_iter(s.0, t, 0, a, vm, wrap, n) == (t, 0int);
            lemma_axis_iter_add(c, t, 0, a, vm, wrap, n1, n2);
            assert(axis_iter(c, t, 0, a, vm, wrap, n1 + n2) == (t, 0int));
        }
    }
}

/// An axis moving toward the target (or resting, or within the snap
/// window) arrives at the target at rest after finitely many ticks.
proof fn lemma_axis_settles_aligned(c: int, t: int, v: int, a: int, vm: int, wrap: bool)
    requires
        params_ok(a, vm),
        a < 2 * EPSILON,
        -vm <= v <= vm,
        wrap ==> crate::angle::is_normalized(c) && crate::angle::is_normalized(t),
        ({
            let wd = wrapped_diff(c, t, wrap);
            abs_spec(wd) < EPSILON || (wd > 0 && v >= 0) || (wd < 0 && v <= 0)
        }),
    ensures
        exists|n: nat| axis_iter(c, t, v, a, vm, wrap, n) == (t, 0int),
{
    lemma_first_approach(c, t, v, a, vm, wrap);
    let n1 = choose|n: nat|
        #[trigger] axis_iter(c, t, v, a, vm, wrap, n) == (t, 0int) || resting(
            axis_iter(c, t, v, a, vm, wrap, n),
            t,
            wrap,
        );
    let s = axis_iter(c, t, v, a, vm, wrap, n1);
    if s == (t, 0int) {
    } else {
        lemma_rest_converges(s.0, t, a, vm, wrap);
        let n2 = choose|n: nat| axis_iter(s.0, t, 0, a, vm, wrap, n) == (t, 0int);
        lemma_axis_iter_add(c, t, v, a, vm, wrap, n1, n2);
        assert(axis_iter(c, t, v, a, vm, wrap, n1 + n2) == (t, 0int));
    }
}

} // verus!
