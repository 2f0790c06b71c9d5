use taiga::framing::{frame_length, frame_packet};

#[test]
fn frame_is_length_then_body() {
    let f = frame_packet(b"hello");
    assert_eq!(f, vec![0, 0, 0, 5, b'h', b'e', b'l', b'l', b'o']);
}

#[test]
fn header_gives_the_length_back() {
    let body = vec![9u8; 300];
    let f = frame_packet(&body);
    let header: [u8; 4] = [f[0], f[1], f[2], f[3]];
    assert_eq!(frame_length(&header), 300);
    assert_eq!(&f[4..], &body[..]);
    assert_eq!(frame_length(&[1, 0, 0, 0]), 16777216);
}

#[test]
fn empty_body_frame() {
    assert_eq!(frame_packet(b""), vec![0, 0, 0, 0]);
}
