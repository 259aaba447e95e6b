use radar_mount::radar::{respond_line, Radar};
use radar_mount::stream::FrameBuffer;

#[test]
fn frame_export_is_always_one_whole_frame() {
    let fb = FrameBuffer::new(4, 2);
    let frame = fb.export_frame();
    assert_eq!(frame.len(), 4 * 2 * 4);
    assert!(frame.iter().all(|&b| b == 0));
}

#[test]
fn frame_store_replaces_whole_contents() {
    let mut fb = FrameBuffer::new(2, 2);
    let data: Vec<u8> = (0u8..16).collect();
    fb.store_frame(&data);
    assert_eq!(fb.export_frame(), data);
    // a second export without a new capture pushes the same frame at
    // the same fixed size
    assert_eq!(fb.export_frame().len(), 2 * 2 * 4);
    assert_eq!(fb.export_frame(), data);
}

#[test]
fn frame_default_dimensions() {
    let fb = FrameBuffer::default();
    assert_eq!(fb.width, 1280);
    assert_eq!(fb.height, 720);
    assert_eq!(fb.export_frame().len(), 1280 * 720 * 4);
}

#[test]
fn unknown_command_line_gets_exact_reply() {
    let mut radar = Radar::default();
    let before = radar;
    let reply = respond_line(&mut radar, b"WHATEVER 12");
    assert_eq!(reply, Some(b"Unknown command\n".to_vec()));
    assert_eq!(radar, before);
}

#[test]
fn malformed_number_is_silently_dropped_and_connection_stays_usable() {
    let mut radar = Radar::default();
    let before = radar;
    let reply = respond_line(&mut radar, b"AZIMUTH abc");
    assert_eq!(reply, None);
    assert_eq!(radar, before);
    // the same connection can immediately issue a valid command
    let reply = respond_line(&mut radar, b"AZIMUTH 45");
    assert_eq!(reply, Some(b"No Errors.\r\n".to_vec()));
    assert_eq!(radar.target.azimuth, 45_000);
}

#[test]
fn query_round_trip_over_the_line_protocol() {
    let mut radar = Radar::default();
    let reply = respond_line(&mut radar, b"azimuth");
    assert_eq!(reply, Some(b"0.00\r\n".to_vec()));
    let reply = respond_line(&mut radar, b"REMOTE");
    assert_eq!(reply, Some(b"O\r\n".to_vec()));
    let reply = respond_line(&mut radar, b"SERVOON");
    assert_eq!(reply, Some(b"No Errors.\r\n".to_vec()));
}
