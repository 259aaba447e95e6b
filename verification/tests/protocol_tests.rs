use radar_mount::numtext::{format_angle, parse_angle};
use radar_mount::protocol::{parse_line, LineBuffer, LineOutcome};
use radar_mount::radar::RadarCommand;

#[test]
fn parse_line_azimuth_set() {
    assert_eq!(
        parse_line(b"AZIMUTH 45"),
        LineOutcome::Dispatch(RadarCommand::Azimuth(45_000))
    );
}

#[test]
fn parse_line_azimuth_query() {
    assert_eq!(
        parse_line(b"AZIMUTH"),
        LineOutcome::Dispatch(RadarCommand::AzimuthQuery)
    );
}

#[test]
fn parse_line_elevation_set_fractional() {
    assert_eq!(
        parse_line(b"ELEVATION -12.5"),
        LineOutcome::Dispatch(RadarCommand::Elevation(-12_500))
    );
}

#[test]
fn parse_line_elevation_query() {
    assert_eq!(
        parse_line(b"ELEVATION"),
        LineOutcome::Dispatch(RadarCommand::ElevationQuery)
    );
}

#[test]
fn parse_line_remote_and_servoon() {
    assert_eq!(
        parse_line(b"REMOTE"),
        LineOutcome::Dispatch(RadarCommand::Remote)
    );
    assert_eq!(
        parse_line(b"SERVOON"),
        LineOutcome::Dispatch(RadarCommand::ServoOn)
    );
}

#[test]
fn parse_line_is_case_insensitive_and_trims() {
    assert_eq!(
        parse_line(b"  azimuth 45  "),
        LineOutcome::Dispatch(RadarCommand::Azimuth(45_000))
    );
    assert_eq!(
        parse_line(b"\tServoOn\n"),
        LineOutcome::Dispatch(RadarCommand::ServoOn)
    );
}

#[test]
fn parse_line_unknown_verb() {
    assert_eq!(parse_line(b"FOO"), LineOutcome::Unknown);
    assert_eq!(parse_line(b""), LineOutcome::Unknown);
    assert_eq!(parse_line(b"AZIMUTHX"), LineOutcome::Unknown);
    assert_eq!(parse_line(b"REMOTE 1"), LineOutcome::Unknown);
    assert_eq!(parse_line(b"AZIMUTH 1 2"), LineOutcome::Unknown);
}

#[test]
fn parse_line_malformed_number_is_dropped() {
    assert_eq!(parse_line(b"AZIMUTH abc"), LineOutcome::Ignore);
    assert_eq!(parse_line(b"ELEVATION 1.2.3"), LineOutcome::Ignore);
    assert_eq!(parse_line(b"AZIMUTH -"), LineOutcome::Ignore);
}

#[test]
fn parse_angle_plain_values() {
    assert_eq!(parse_angle(b"45"), Some(45_000));
    assert_eq!(parse_angle(b"-170"), Some(-170_000));
    assert_eq!(parse_angle(b"+2.125"), Some(2_125));
    assert_eq!(parse_angle(b"0"), Some(0));
    assert_eq!(parse_angle(b".5"), Some(500));
    assert_eq!(parse_angle(b"5."), Some(5_000));
}

#[test]
fn parse_angle_truncates_extra_fraction_digits() {
    assert_eq!(parse_angle(b"45.1239999"), Some(45_123));
}

#[test]
fn parse_angle_rejects_malformed() {
    assert_eq!(parse_angle(b""), None);
    assert_eq!(parse_angle(b"."), None);
    assert_eq!(parse_angle(b"+"), None);
    assert_eq!(parse_angle(b"abc"), None);
    assert_eq!(parse_angle(b"1e3"), None);
    assert_eq!(parse_angle(b"4 5"), None);
}

#[test]
fn parse_angle_rejects_out_of_range() {
    assert_eq!(parse_angle(b"360000"), Some(360_000_000));
    assert_eq!(parse_angle(b"360000.001"), None);
    assert_eq!(parse_angle(b"99999999999999999999"), None);
}

#[test]
fn format_angle_two_fraction_digits() {
    assert_eq!(format_angle(45_000), b"45.00".to_vec());
    assert_eq!(format_angle(-170_000), b"-170.00".to_vec());
    assert_eq!(format_angle(0), b"0.00".to_vec());
    assert_eq!(format_angle(123_456), b"123.46".to_vec());
    assert_eq!(format_angle(45_004), b"45.00".to_vec());
    assert_eq!(format_angle(45_005), b"45.01".to_vec());
    assert_eq!(format_angle(-2), b"-0.00".to_vec());
}

#[test]
fn line_buffer_splits_on_carriage_return() {
    let mut buf = LineBuffer::new();
    buf.feed(b"AZIMUTH 45\rELEVATION 3\r");
    assert_eq!(buf.next_line(), Some(b"AZIMUTH 45".to_vec()));
    assert_eq!(buf.next_line(), Some(b"ELEVATION 3".to_vec()));
    assert_eq!(buf.next_line(), None);
}

#[test]
fn line_buffer_waits_for_terminator() {
    let mut buf = LineBuffer::new();
    buf.feed(b"AZIM");
    assert_eq!(buf.next_line(), None);
    buf.feed(b"UTH\r");
    assert_eq!(buf.next_line(), Some(b"AZIMUTH".to_vec()));
}

#[test]
fn line_buffer_newline_is_not_a_terminator() {
    let mut buf = LineBuffer::new();
    buf.feed(b"REMOTE\n");
    assert_eq!(buf.next_line(), None);
    buf.feed(b"\r");
    assert_eq!(buf.next_line(), Some(b"REMOTE\n".to_vec()));
}
