use sysfetch::edid::{decode_edid, encode_edid, get_screen_resolution, parse_edid_resolution};

fn sample_edid(h: u16, v: u16) -> Vec<u8> {
    encode_edid(h, v)
}

#[test]
fn round_trip_reproduces_resolution() {
    for (h, v) in [(1u16, 1u16), (1920, 1080), (2560, 1440), (4095, 4095), (640, 480)] {
        let bytes = sample_edid(h, v);
        assert_eq!(bytes.len(), 128);
        assert_eq!(decode_edid(&bytes), Some((h, v)));
    }
}

#[test]
fn label_of_encoded_descriptor() {
    let bytes = sample_edid(1920, 1080);
    assert_eq!(parse_edid_resolution(&bytes).as_deref(), Some("1920x1080"));
}

#[test]
fn short_buffer_is_absent() {
    assert_eq!(parse_edid_resolution(&[]), None);
    assert_eq!(parse_edid_resolution(&[0x00, 0xFF, 0xFF]), None);
    let mut bytes = sample_edid(1024, 768);
    bytes.truncate(127);
    assert_eq!(parse_edid_resolution(&bytes), None);
}

#[test]
fn bad_header_is_absent() {
    let mut bytes = sample_edid(1024, 768);
    bytes[1] = 0x00;
    assert_eq!(parse_edid_resolution(&bytes), None);
    let mut bytes2 = sample_edid(1024, 768);
    bytes2[7] = 0xFF;
    assert_eq!(decode_edid(&bytes2), None);
}

#[test]
fn zero_resolution_is_absent() {
    let bytes = sample_edid(0, 768);
    assert_eq!(decode_edid(&bytes), None);
    let bytes2 = sample_edid(1024, 0);
    assert_eq!(decode_edid(&bytes2), None);
}

#[test]
fn joins_multiple_displays() {
    let blobs = vec![sample_edid(1920, 1080), vec![1, 2, 3], sample_edid(1280, 720)];
    assert_eq!(get_screen_resolution(&blobs), "1920x1080, 1280x720");
}

#[test]
fn no_usable_display_reads_unknown() {
    let blobs: Vec<Vec<u8>> = vec![];
    assert_eq!(get_screen_resolution(&blobs), "Unknown");
    let bad = vec![vec![0u8; 128], vec![]];
    assert_eq!(get_screen_resolution(&bad), "Unknown");
}
