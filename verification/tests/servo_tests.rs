use radar_mount::radar::{
    handle_command, handle_commands, update_radar, Radar, RadarCommand,
};
use radar_mount::servo::update;

#[test]
fn update_accelerates_from_rest() {
    let (c, v) = update(0, 45_000, 0, 16, 2_000, false);
    assert_eq!(v, 16);
    assert_eq!(c, 16);
}

#[test]
fn update_snaps_inside_epsilon() {
    let (c, v) = update(44_995, 45_000, 3, 16, 2_000, false);
    assert_eq!((c, v), (45_000, 0));
}

#[test]
fn update_caps_velocity_at_ceiling() {
    let (_, v) = update(0, 300_000, 1_995, 16, 2_000, false);
    assert_eq!(v, 2_000);
}

#[test]
fn azimuth_wraps_the_short_way() {
    // current 170 deg, target -170 deg: the short path crosses 180 deg,
    // so the axis moves toward +180 rather than back through 0
    let (c, v) = update(170_000, -170_000, 0, 16, 2_000, true);
    assert!(v > 0);
    assert_eq!(c, 170_016);
}

#[test]
fn azimuth_crosses_the_seam() {
    // almost at +180 with forward velocity: the position wraps to the
    // negative side instead of leaving the normalized interval
    let (c, v) = update(179_998, -170_000, 1_000, 16, 2_000, true);
    assert!(v > 0);
    assert!(c > -180_000 && c <= 180_000);
    assert!(c < 0);
}

#[test]
fn radar_converges_to_azimuth_target() {
    let mut radar = Radar::default();
    let reply = handle_command(&mut radar, &RadarCommand::Azimuth(45_000));
    assert_eq!(reply, b"No Errors.\r\n".to_vec());
    assert_eq!(radar.target.azimuth, 45_000);
    let mut ticks = 0;
    while !(radar.current.azimuth == 45_000 && radar.azimuth_velocity == 0) {
        // no overshoot on the way: the approach from rest at zero
        // stays at or below the target
        assert!(radar.current.azimuth <= 45_000);
        // the velocity never exceeds the ceiling and never changes by
        // more than one acceleration increment except on a stop
        let before = radar.azimuth_velocity;
        update_radar(&mut radar);
        let after = radar.azimuth_velocity;
        assert!(after.abs() <= radar.max_azimuth_velocity);
        assert!(after == 0 || (after - before).abs() <= radar.azimuth_acceleration);
        ticks += 1;
        assert!(ticks < 10_000);
    }
    assert_eq!(radar.current.azimuth, 45_000);
    assert_eq!(radar.azimuth_velocity, 0);
    // the settled state is a fixed point
    let settled = radar;
    update_radar(&mut radar);
    assert_eq!(radar, settled);
}

#[test]
fn radar_elevation_does_not_wrap() {
    let mut radar = Radar::default();
    handle_command(&mut radar, &RadarCommand::Elevation(200_000));
    assert_eq!(radar.target.elevation, 200_000);
    let mut ticks = 0;
    while !(radar.current.elevation == 200_000 && radar.elevation_velocity == 0) {
        update_radar(&mut radar);
        ticks += 1;
        assert!(ticks < 20_000);
    }
    // 200 degrees of real travel at two degrees per tick takes at
    // least a hundred ticks; the wrapped short way would be shorter
    assert!(ticks > 90);
}

#[test]
fn azimuth_target_is_normalized() {
    let mut radar = Radar::default();
    handle_command(&mut radar, &RadarCommand::Azimuth(200_000));
    assert_eq!(radar.target.azimuth, -160_000);
}

#[test]
fn queries_do_not_change_state() {
    let mut radar = Radar::default();
    handle_command(&mut radar, &RadarCommand::Azimuth(10_000));
    let before = radar;
    let first = handle_command(&mut radar, &RadarCommand::AzimuthQuery);
    let second = handle_command(&mut radar, &RadarCommand::AzimuthQuery);
    assert_eq!(radar, before);
    assert_eq!(first, second);
    assert_eq!(first, b"0.00\r\n".to_vec());
}

#[test]
fn query_converges_to_set_value() {
    let mut radar = Radar::default();
    handle_command(&mut radar, &RadarCommand::Azimuth(45_000));
    for _ in 0..1_000 {
        update_radar(&mut radar);
    }
    let reply = handle_command(&mut radar, &RadarCommand::AzimuthQuery);
    assert_eq!(reply, b"45.00\r\n".to_vec());
}

#[test]
fn commands_drain_in_order() {
    let mut radar = Radar::default();
    let queue = vec![
        RadarCommand::Remote,
        RadarCommand::ServoOn,
        RadarCommand::Azimuth(10_000),
        RadarCommand::AzimuthQuery,
        RadarCommand::ElevationQuery,
    ];
    let replies = handle_commands(&mut radar, &queue);
    assert_eq!(replies.len(), 5);
    assert_eq!(replies[0], b"O\r\n".to_vec());
    assert_eq!(replies[1], b"No Errors.\r\n".to_vec());
    assert_eq!(replies[2], b"No Errors.\r\n".to_vec());
    // the set changed only the target; the current angle is untouched
    // until a tick runs
    assert_eq!(replies[3], b"0.00\r\n".to_vec());
    assert_eq!(replies[4], b"0.00\r\n".to_vec());
    assert_eq!(radar.target.azimuth, 10_000);
    assert_eq!(radar.current.azimuth, 0);
}

#[test]
fn negative_azimuth_query_formats_sign() {
    let mut radar = Radar::default();
    handle_command(&mut radar, &RadarCommand::Azimuth(-90_000));
    for _ in 0..2_000 {
        update_radar(&mut radar);
    }
    let reply = handle_command(&mut radar, &RadarCommand::AzimuthQuery);
    assert_eq!(reply, b"-90.00\r\n".to_vec());
}

#[test]
fn tick_at_target_is_identity() {
    let mut radar = Radar::default();
    let before = radar;
    update_radar(&mut radar);
    assert_eq!(radar, before);
}

#[test]
fn outbound_velocity_is_braked_and_still_converges() {
    // start near the seam, moving away from the commanded target
    let mut radar = Radar::default();
    radar.current.azimuth = 170_000;
    radar.azimuth_velocity = 2_000;
    radar.target.azimuth = -170_000;
    let mut ticks = 0;
    while !(radar.current.azimuth == -170_000 && radar.azimuth_velocity == 0) {
        update_radar(&mut radar);
        // the azimuth stays in the normalized interval throughout
        assert!(radar.current.azimuth > -180_000 && radar.current.azimuth <= 180_000);
        assert!(radar.azimuth_velocity.abs() <= radar.max_azimuth_velocity);
        ticks += 1;
        assert!(ticks < 10_000);
    }
    // the settled state is a fixed point
    let settled = radar;
    update_radar(&mut radar);
    assert_eq!(radar, settled);
}
