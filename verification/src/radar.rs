//! The radar mount: shared orientation state, the commands a client can
//! issue, per-tick motion advancement, and command handling with the
//! exact reply each command earns.

use vstd::prelude::*;

verus! {

use crate::EPSILON;
use crate::MAX_TARGET;
use crate::angle::is_normalized;
use crate::angle::norm;
use crate::protocol::no_errors_reply;
use crate::protocol::query_reply;
use crate::protocol::remote_reply;
use crate::protocol::reply_no_errors;
use crate::protocol::reply_query;
use crate::protocol::reply_remote;
use crate::protocol::reply_unknown;
use crate::protocol::unknown_reply;
use crate::protocol::classify_spec;
use crate::protocol::lemma_classify_ok;
use crate::protocol::parse_line;
use crate::protocol::LineOutcome;
use crate::servo::axis_iter;
use crate::servo::axis_step;
use crate::servo::lemma_axis_converges;
use crate::servo::lemma_axis_stays;
use crate::servo::lemma_next_velocity_bounds;
use crate::servo::envelope;
use crate::servo::lemma_env_snap;
use crate::servo::lemma_envelope_position_bound;
use crate::servo::lemma_envelope_step;
use crate::servo::params_ok;
use crate::servo::update;

/// Default acceleration: ten degrees per second squared, in
/// millidegrees per tick squared at the fixed 25 Hz tick rate.
pub const DEFAULT_ACCELERATION: i64 = 16;

/// Default velocity ceiling: fifty degrees per second, in millidegrees
/// per tick at the fixed 25 Hz tick rate.
pub const DEFAULT_MAX_VELOCITY: i64 = 2000;

/// A command accepted from a client, as the simulation loop consumes
/// it. The connection machinery that carries replies back to the
/// issuing client lives outside the library.
#[derive(Clone, Copy, Debug, PartialEq, Eq, Structural)]
pub enum RadarCommand {
    /// Switch the mount to remote control.
    Remote,
    /// Power the servos on.
    ServoOn,
    /// Command a new azimuth target, in millidegrees.
    Azimuth(i64),
    /// Command a new elevation target, in millidegrees.
    Elevation(i64),
    /// Ask for the current azimuth.
    AzimuthQuery,
    /// Ask for the current elevation.
    ElevationQuery,
}

/// A command's numeric argument is within the commandable range.
pub open spec fn command_ok(cmd: RadarCommand) -> bool {
    match cmd {
        RadarCommand::Azimuth(v) => -MAX_TARGET <= v <= MAX_TARGET,
        RadarCommand::Elevation(v) => -MAX_TARGET <= v <= MAX_TARGET,
        _ => true,
    }
}

/// One orientation of the mount, in millidegrees.
#[derive(Clone, Copy, Debug, PartialEq, Eq, Structural)]
pub struct RadarState {
    /// Horizontal pointing angle, normalized to (-180 deg, 180 deg].
    pub azimuth: i64,
    /// Vertical pointing angle, unconstrained by wrapping.
    pub elevation: i64,
}

impl Default for RadarState {
    /// The rest orientation: pointing at zero on both axes.
    fn default() -> (r: Self)
        ensures
            r.azimuth == 0 && r.elevation == 0,
    {
        RadarState { azimuth: 0, elevation: 0 }
    }
}

/// The whole mount: realized and commanded orientations and the motion
/// state of both axes.
#[derive(Clone, Copy, Debug, PartialEq, Eq, Structural)]
pub struct Radar {
    /// The physically realized orientation; only ticking moves it.
    pub current: RadarState,
    /// The commanded orientation; only commands move it.
    pub target: RadarState,
    /// Azimuth velocity, millidegrees per tick.
    pub azimuth_velocity: i64,
    /// Azimuth acceleration, millidegrees per tick squared.
    pub azimuth_acceleration: i64,
    /// Azimuth velocity ceiling, millidegrees per tick.
    pub max_azimuth_velocity: i64,
    /// Elevation velocity, millidegrees per tick.
    pub elevation_velocity: i64,
    /// Elevation acceleration, millidegrees per tick squared.
    pub elevation_acceleration: i64,
    /// Elevation velocity ceiling, millidegrees per tick.
    pub max_elevation_velocity: i64,
}

impl Radar {
    /// Well-formedness: parameters in range, azimuth angles normalized,
    /// the elevation target commandable, velocities within their
    /// ceilings, and the elevation position inside its reachability
    /// envelope.
    pub open spec fn wf(self) -> bool {
        &&& params_ok(self.azimuth_acceleration as int, self.max_azimuth_velocity as int)
        &&& params_ok(self.elevation_acceleration as int, self.max_elevation_velocity as int)
        &&& is_normalized(self.current.azimuth as int)
        &&& is_normalized(self.target.azimuth as int)
        &&& -self.max_azimuth_velocity <= self.azimuth_velocity <= self.max_azimuth_velocity
        &&& -MAX_TARGET <= self.target.elevation <= MAX_TARGET
        &&& -self.max_elevation_velocity <= self.elevation_velocity
            <= self.max_elevation_velocity
        &&& envelope(
            self.current.elevation as int,
            self.elevation_velocity as int,
            self.elevation_acceleration as int,
            self.max_elevation_velocity as int,
        )
    }
}

impl Default for Radar {
    /// A mount at rest at the zero orientation, with the default
    /// acceleration and velocity ceiling on both axes.
    fn default() -> (r: Self)
        ensures
            r.wf(),
            r.current == (RadarState { azimuth: 0i64, elevation: 0i64 }),
            r.target == (RadarState { azimuth: 0i64, elevation: 0i64 }),
            r.azimuth_velocity == 0 && r.elevation_velocity == 0,
            r.azimuth_acceleration == DEFAULT_ACCELERATION,
            r.max_azimuth_velocity == DEFAULT_MAX_VELOCITY,
            r.elevation_acceleration == DEFAULT_ACCELERATION,
            r.max_elevation_velocity == DEFAULT_MAX_VELOCITY,
    {
        proof {
            lemma_env_snap(0, DEFAULT_ACCELERATION as int, DEFAULT_MAX_VELOCITY as int);
        }
        Radar {
            current: RadarState { azimuth: 0, elevation: 0 },
            target: RadarState { azimuth: 0, elevation: 0 },
            azimuth_velocity: 0,
            azimuth_acceleration: DEFAULT_ACCELERATION,
            max_azimuth_velocity: DEFAULT_MAX_VELOCITY,
            elevation_velocity: 0,
            elevation_acceleration: DEFAULT_ACCELERATION,
            max_elevation_velocity: DEFAULT_MAX_VELOCITY,
        }
    }
}

/// What one tick does to the whole mount: both axes advance by the
/// acceleration-limited law, azimuth with wrapping, elevation without.
pub open spec fn radar_tick_spec(r: Radar) -> Radar {
    let az = axis_step(
        r.current.azimuth as int,
        r.target.azimuth as int,
        r.azimuth_velocity as int,
        r.azimuth_acceleration as int,
        r.max_azimuth_velocity as int,
        true,
    );
    let el = axis_step(
        r.current.elevation as int,
        r.target.elevation as int,
        r.elevation_velocity as int,
        r.elevation_acceleration as int,
        r.max_elevation_velocity as int,
        false,
    );
    Radar {
        current: RadarState { azimuth: az.0 as i64, elevation: el.0 as i64 },
        azimuth_velocity: az.1 as i64,
        elevation_velocity: el.1 as i64,
        ..r
    }
}

/// Advance the mount by one fixed simulation tick. Targets and
/// parameters are untouched; both currents and velocities move by the
/// acceleration-limited law.
pub fn update_radar(radar: &mut Radar)
    requires
        old(radar).wf(),
    ensures
        *final(radar) == radar_tick_spec(*old(radar)),
        final(radar).wf(),
{
    proof {
        lemma_envelope_position_bound(
            radar.current.elevation as int,
            radar.elevation_velocity as int,
            radar.elevation_acceleration as int,
            radar.max_elevation_velocity as int,
        );
        lemma_envelope_step(
            radar.current.elevation as int,
            radar.target.elevation as int,
            radar.elevation_velocity as int,
            radar.elevation_acceleration as int,
            radar.max_elevation_velocity as int,
        );
    }
    let (naz, nvaz) = update(
        radar.current.azimuth,
        radar.target.azimuth,
        radar.azimuth_velocity,
        radar.azimuth_acceleration,
        radar.max_azimuth_velocity,
        true,
    );
    let (nel, nvel) = update(
        radar.current.elevation,
        radar.target.elevation,
        radar.elevation_velocity,
        radar.elevation_acceleration,
        radar.max_elevation_velocity,
        false,
    );
    radar.current.azimuth = naz;
    radar.azimuth_velocity = nvaz;
    radar.current.elevation = nel;
    radar.elevation_velocity = nvel;
}

/// What one command does to the mount: set commands move the matching
/// target (azimuth targets are normalized first); everything else
/// leaves the state alone.
pub open spec fn apply_command_spec(r: Radar, cmd: RadarCommand) -> Radar {
    match cmd {
        RadarCommand::Azimuth(v) => Radar {
            target: RadarState { azimuth: norm(v as int) as i64, ..r.target },
            ..r
        },
        RadarCommand::Elevation(v) => Radar {
            target: RadarState { elevation: v, ..r.target },
            ..r
        },
        _ => r,
    }
}

/// The reply each command earns, as bytes on the wire: acknowledgments
/// for sets and SERVOON, `O` for REMOTE, and the current angle of the
/// queried axis with two fraction digits.
pub open spec fn reply_spec(r: Radar, cmd: RadarCommand) -> Seq<u8> {
    match cmd {
        RadarCommand::Remote => remote_reply(),
        RadarCommand::ServoOn => no_errors_reply(),
        RadarCommand::Azimuth(_) => no_errors_reply(),
        RadarCommand::Elevation(_) => no_errors_reply(),
        RadarCommand::AzimuthQuery => query_reply(r.current.azimuth as int),
        RadarCommand::ElevationQuery => query_reply(r.current.elevation as int),
    }
}

/// Handle one command against the mount state, producing exactly the
/// reply owed to the issuing client. Queries leave the state untouched.
pub fn handle_command(radar: &mut Radar, cmd: &RadarCommand) -> (reply: Vec<u8>)
    requires
        old(radar).wf(),
        command_ok(*cmd),
    ensures
        *final(radar) == apply_command_spec(*old(radar), *cmd),
        final(radar).wf(),
        reply@ == reply_spec(*old(radar), *cmd),
{
    match cmd {
        RadarCommand::Remote => reply_remote(),
        RadarCommand::ServoOn => reply_no_errors(),
        RadarCommand::Azimuth(v) => {
            radar.target.azimuth = crate::angle::normalize_angle(*v);
            reply_no_errors()
        },
        RadarCommand::Elevation(v) => {
            radar.target.elevation = *v;
            reply_no_errors()
        },
        RadarCommand::AzimuthQuery => {
            proof {
                lemma_envelope_position_bound(
                    radar.current.elevation as int,
                    radar.elevation_velocity as int,
                    radar.elevation_acceleration as int,
                    radar.max_elevation_velocity as int,
                );
            }
            reply_query(radar.current.azimuth)
        },
        RadarCommand::ElevationQuery => {
            proof {
                lemma_envelope_position_bound(
                    radar.current.elevation as int,
                    radar.elevation_velocity as int,
                    radar.elevation_acceleration as int,
                    radar.max_elevation_velocity as int,
                );
            }
            reply_query(radar.current.elevation)
        },
    }
}

/// The state after a queue of commands, applied in arrival order.
pub open spec fn run_commands_spec(r: Radar, cmds: Seq<RadarCommand>) -> Radar
    decreases cmds.len(),
{
    if cmds.len() == 0 {
        r
    } else {
        run_commands_spec(apply_command_spec(r, cmds[0]), cmds.drop_first())
    }
}

/// Running one more command continues from the state so far.
pub proof fn lemma_run_commands_snoc(r: Radar, cmds: Seq<RadarCommand>, k: int)
    requires
        0 <= k < cmds.len(),
    ensures
        run_commands_spec(r, cmds.take(k + 1)) == apply_command_spec(
            run_commands_spec(r, cmds.take(k)),
            cmds[k],
        ),
    decreases k,
{
    if k == 0 {
        assert(cmds.take(1) =~= seq![cmds[0]]);
        assert(cmds.take(1).drop_first() =~= Seq::<RadarCommand>::empty());
        assert(cmds.take(0) =~= Seq::<RadarCommand>::empty());
        assert(run_commands_spec(r, cmds.take(0)) == r);
        assert(cmds.take(1)[0] == cmds[0]);
        assert(run_commands_spec(r, cmds.take(1)) == run_commands_spec(
            apply_command_spec(r, cmds[0]),
            cmds.take(1).drop_first(),
        ));
        assert(run_commands_spec(r, cmds.take(1)) == apply_command_spec(r, cmds[0]));
    } else {
        let r1 = apply_command_spec(r, cmds[0]);
        let rest = cmds.drop_first();
        assert(cmds.take(k + 1).drop_first() =~= rest.take(k));
        assert(cmds.take(k).drop_first() =~= rest.take(k - 1));
        assert(cmds.take(k + 1)[0] == cmds[0] && cmds.take(k)[0] == cmds[0]);
        lemma_run_commands_snoc(r1, rest, k - 1);
        assert(rest[k - 1] == cmds[k]);
    }
}

/// Drain a queue of commands in arrival order, producing one reply per
/// command: each reply is what the command earned against the state as
/// it stood when that command was handled.
pub fn handle_commands(radar: &mut Radar, commands: &Vec<RadarCommand>) -> (replies: Vec<Vec<u8>>)
    requires
        old(radar).wf(),
        forall|k: int| 0 <= k < commands@.len() ==> command_ok(#[trigger] commands@[k]),
    ensures
        final(radar).wf(),
        *final(radar) == run_commands_spec(*old(radar), commands@),
        replies@.len() == commands@.len(),
        forall|k: int|
            0 <= k < commands@.len() ==> #[trigger] replies@[k]@ == reply_spec(
                run_commands_spec(*old(radar), commands@.take(k)),
                commands@[k],
            ),
{
    let n = commands.len();
    let mut replies: Vec<Vec<u8>> = Vec::new();
    let mut i: usize = 0;
    while i < n
        invariant
            i <= n,
            n == commands@.len(),
            forall|k: int| 0 <= k < commands@.len() ==> command_ok(#[trigger] commands@[k]),
            radar.wf(),
            *radar == run_commands_spec(*old(radar), commands@.take(i as int)),
            replies@.len() == i,
            forall|k: int|
                0 <= k < i ==> #[trigger] replies@[k]@ == reply_spec(
                    run_commands_spec(*old(radar), commands@.take(k)),
                    commands@[k],
                ),
        decreases n - i,
    {
        let reply = handle_command(radar, &commands[i]);
        replies.push(reply);
        proof {
            lemma_run_commands_snoc(*old(radar), commands@, i as int);
        }
        i = i + 1;
    }
    proof {
        assert(commands@.take(n as int) =~= commands@);
    }
    replies
}

/// Queries do not disturb the state, so two queries with no tick
/// between them see the same state and return byte-identical replies.
pub proof fn lemma_query_stable(r: Radar)
    ensures
        apply_command_spec(r, RadarCommand::AzimuthQuery) == r,
        apply_command_spec(r, RadarCommand::ElevationQuery) == r,
        reply_spec(apply_command_spec(r, RadarCommand::AzimuthQuery), RadarCommand::AzimuthQuery)
            == reply_spec(r, RadarCommand::AzimuthQuery),
        reply_spec(
            apply_command_spec(r, RadarCommand::ElevationQuery),
            RadarCommand::ElevationQuery,
        ) == reply_spec(r, RadarCommand::ElevationQuery),
{
}


/// Serve one complete command line synchronously: classify it, apply
/// any recognized command to the state, and produce the reply owed to
/// the client, or nothing for a silently dropped line. A line with no
/// recognized verb changes nothing and earns exactly the
/// unknown-command reply; a recognized verb with a malformed number
/// changes nothing and earns no reply at all.
pub fn respond_line(radar: &mut Radar, line: &[u8]) -> (reply: Option<Vec<u8>>)
    requires
        old(radar).wf(),
    ensures
        final(radar).wf(),
        (match classify_spec(line@) {
            LineOutcome::Dispatch(cmd) => *final(radar) == apply_command_spec(
                *old(radar),
                cmd,
            ) && (reply matches Some(b) && b@ == reply_spec(*old(radar), cmd)),
            LineOutcome::Unknown => *final(radar) == *old(radar) && (reply matches Some(b) && b@
                == unknown_reply()),
            LineOutcome::Ignore => *final(radar) == *old(radar) && reply is None,
        }),
{
    let outcome = parse_line(line);
    proof {
        lemma_classify_ok(line@);
    }
    match outcome {
        LineOutcome::Dispatch(cmd) => Some(handle_command(radar, &cmd)),
        LineOutcome::Unknown => Some(reply_unknown()),
        LineOutcome::Ignore => None,
    }
}


/// The mount state after `n` fixed simulation ticks.
pub open spec fn radar_iter_spec(r: Radar, n: nat) -> Radar
    decreases n,
{
    if n == 0 {
        r
    } else {
        radar_iter_spec(radar_tick_spec(r), (n - 1) as nat)
    }
}

/// One tick keeps the mount well formed.
pub proof fn lemma_radar_tick_wf(r: Radar)
    requires
        r.wf(),
    ensures
        radar_tick_spec(r).wf(),
        radar_tick_spec(r).target == r.target,
        radar_tick_spec(r).azimuth_acceleration == r.azimuth_acceleration,
        radar_tick_spec(r).max_azimuth_velocity == r.max_azimuth_velocity,
        radar_tick_spec(r).elevation_acceleration == r.elevation_acceleration,
        radar_tick_spec(r).max_elevation_velocity == r.max_elevation_velocity,
        radar_tick_spec(r).current.azimuth as int == axis_step(
            r.current.azimuth as int,
            r.target.azimuth as int,
            r.azimuth_velocity as int,
            r.azimuth_acceleration as int,
            r.max_azimuth_velocity as int,
            true,
        ).0,
        radar_tick_spec(r).azimuth_velocity as int == axis_step(
            r.current.azimuth as int,
            r.target.azimuth as int,
            r.azimuth_velocity as int,
            r.azimuth_acceleration as int,
            r.max_azimuth_velocity as int,
            true,
        ).1,
        radar_tick_spec(r).current.elevation as int == axis_step(
            r.current.elevation as int,
            r.target.elevation as int,
            r.elevation_velocity as int,
            r.elevation_acceleration as int,
            r.max_elevation_velocity as int,
            false,
        ).0,
        radar_tick_spec(r).elevation_velocity as int == axis_step(
            r.current.elevation as int,
            r.target.elevation as int,
            r.elevation_velocity as int,
            r.elevation_acceleration as int,
            r.max_elevation_velocity as int,
            false,
        ).1,
{
    let az = axis_step(
        r.current.azimuth as int,
        r.target.azimuth as int,
        r.azimuth_velocity as int,
        r.azimuth_acceleration as int,
        r.max_azimuth_velocity as int,
        true,
    );
    let el = axis_step(
        r.current.elevation as int,
        r.target.elevation as int,
        r.elevation_velocity as int,
        r.elevation_acceleration as int,
        r.max_elevation_velocity as int,
        false,
    );
    let daz = norm(r.target.azimuth - r.current.azimuth);
    crate::angle::lemma_norm_range(r.target.azimuth - r.current.azimuth);
    if crate::angle::abs_spec(daz) >= EPSILON {
        lemma_next_velocity_bounds(
            daz,
            r.azimuth_velocity as int,
            r.azimuth_acceleration as int,
            r.max_azimuth_velocity as int,
        );
        crate::angle::lemma_norm_range(r.current.azimuth + az.1);
    }
    let del = r.target.elevation - r.current.elevation;
    if crate::angle::abs_spec(del) >= EPSILON {
        lemma_next_velocity_bounds(
            del,
            r.elevation_velocity as int,
            r.elevation_acceleration as int,
            r.max_elevation_velocity as int,
        );
    }
    lemma_envelope_step(
        r.current.elevation as int,
        r.target.elevation as int,
        r.elevation_velocity as int,
        r.elevation_acceleration as int,
        r.max_elevation_velocity as int,
    );
    lemma_envelope_position_bound(
        el.0,
        el.1,
        r.elevation_acceleration as int,
        r.max_elevation_velocity as int,
    );
}

/// Iterated ticking moves each axis exactly as its own iterated
/// per-axis law does.
pub proof fn lemma_radar_iter_components(r: Radar, n: nat)
    requires
        r.wf(),
    ensures
        radar_iter_spec(r, n).wf(),
        radar_iter_spec(r, n).target == r.target,
        radar_iter_spec(r, n).azimuth_acceleration == r.azimuth_acceleration,
        radar_iter_spec(r, n).max_azimuth_velocity == r.max_azimuth_velocity,
        radar_iter_spec(r, n).elevation_acceleration == r.elevation_acceleration,
        radar_iter_spec(r, n).max_elevation_velocity == r.max_elevation_velocity,
        (radar_iter_spec(r, n).current.azimuth as int, radar_iter_spec(r, n).azimuth_velocity as int)
            == axis_iter(
            r.current.azimuth as int,
            r.target.azimuth as int,
            r.azimuth_velocity as int,
            r.azimuth_acceleration as int,
            r.max_azimuth_velocity as int,
            true,
            n,
        ),
        (radar_iter_spec(r, n).current.elevation as int, radar_iter_spec(
            r,
            n,
        ).elevation_velocity as int) == axis_iter(
            r.current.elevation as int,
            r.target.elevation as int,
            r.elevation_velocity as int,
            r.elevation_acceleration as int,
            r.max_elevation_velocity as int,
            false,
            n,
        ),
    decreases n,
{
    if n > 0 {
        lemma_radar_tick_wf(r);
        lemma_radar_iter_components(radar_tick_spec(r), (n - 1) as nat);
    }
}

/// A mount that has arrived (both currents at their targets, both
/// velocities zero) is a fixed point: ticking changes nothing.
pub proof fn lemma_radar_tick_fixed(r: Radar)
    requires
        r.wf(),
        r.current == r.target,
        r.azimuth_velocity == 0,
        r.elevation_velocity == 0,
    ensures
        radar_tick_spec(r) == r,
{
    crate::angle::lemma_norm_identity(0);
}

/// The mount has arrived: both currents on their targets, both
/// velocities zero.
pub open spec fn radar_settled(r: Radar) -> bool {
    r.current == r.target && r.azimuth_velocity == 0 && r.elevation_velocity == 0
}

/// From tick `n` on, the mount is always settled.
pub open spec fn radar_settled_from(r: Radar, n: nat) -> bool {
    forall|m: nat| m >= n ==> radar_settled(#[trigger] radar_iter_spec(r, m))
}

/// Repeated ticking converges: from any well-formed state whose
/// per-tick acceleration increments lie below twice the snap window,
/// there is a tick count after which both currents sit exactly on
/// their targets with both velocities zero, and every further tick
/// leaves it so.
pub proof fn lemma_radar_converges(r: Radar)
    requires
        r.wf(),
        r.azimuth_acceleration < 2 * EPSILON,
        r.elevation_acceleration < 2 * EPSILON,
    ensures
        exists|n: nat| radar_settled_from(r, n),
{
    let caz = r.current.azimuth as int;
    let taz = r.target.azimuth as int;
    let vaz = r.azimuth_velocity as int;
    let aaz = r.azimuth_acceleration as int;
    let maz = r.max_azimuth_velocity as int;
    let cel = r.current.elevation as int;
    let tel = r.target.elevation as int;
    let vel = r.elevation_velocity as int;
    let ael = r.elevation_acceleration as int;
    let mel = r.max_elevation_velocity as int;
    lemma_axis_converges(caz, taz, vaz, aaz, maz, true);
    lemma_axis_converges(cel, tel, vel, ael, mel, false);
    let naz = choose|n: nat| axis_iter(caz, taz, vaz, aaz, maz, true, n) == (taz, 0int);
    let nel = choose|n: nat| axis_iter(cel, tel, vel, ael, mel, false, n) == (tel, 0int);
    let n0 = if naz >= nel {
        naz
    } else {
        nel
    };
    assert forall|m: nat| m >= n0 implies radar_settled(#[trigger] radar_iter_spec(r, m)) by {
        lemma_axis_stays(caz, taz, vaz, aaz, maz, true, naz, m);
        lemma_axis_stays(cel, tel, vel, ael, mel, false, nel, m);
        lemma_radar_iter_components(r, m);
    }
    assert(radar_settled_from(r, n0));
}

} // verus!