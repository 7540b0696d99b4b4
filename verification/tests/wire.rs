use localbeam::wire::{read_msg, write_msg, ReadStep, MAX_HEADER_BYTES};

#[test]
fn a_message_is_its_length_and_its_body() {
    assert_eq!(write_msg(b"abc"), vec![0, 0, 0, 3, b'a', b'b', b'c']);
    assert_eq!(write_msg(b""), vec![0, 0, 0, 0]);
    let long = vec![9u8; 0x01_02_03];
    assert_eq!(write_msg(&long)[..4], [0, 1, 2, 3]);
}

#[test]
fn a_written_message_is_read_piece_by_piece() {
    let body: Vec<u8> = (0..1000u32).map(|i| i as u8).collect();
    let mut wire = write_msg(&body);
    wire.extend_from_slice(b"what follows");
    let mut arrived: Vec<u8> = Vec::new();
    loop {
        match read_msg(&arrived) {
            ReadStep::Need(n) => {
                assert!(n > 0);
                let from = arrived.len();
                arrived.extend_from_slice(&wire[from..from + n]);
            }
            ReadStep::Body(b) => {
                assert_eq!(b, body);
                break;
            }
            ReadStep::TooLarge(n) => panic!("{n}"),
        }
    }
    assert_eq!(arrived.len(), 1004);
    assert!(matches!(read_msg(&wire), ReadStep::Body(b) if b == body));
}

#[test]
fn the_length_is_needed_first() {
    assert!(matches!(read_msg(&[]), ReadStep::Need(4)));
    assert!(matches!(read_msg(&[0, 0, 1]), ReadStep::Need(1)));
    assert!(matches!(read_msg(&[0, 0, 1, 0]), ReadStep::Need(256)));
    assert!(matches!(read_msg(&[0, 0, 0, 0]), ReadStep::Body(b) if b.is_empty()));
}

#[test]
fn long_messages_are_refused_on_their_length() {
    assert_eq!(MAX_HEADER_BYTES, 1024 * 1024);
    assert!(matches!(read_msg(&[0, 0x10, 0, 0]), ReadStep::Need(0x10_0000)));
    assert!(matches!(read_msg(&[0, 0x10, 0, 1]), ReadStep::TooLarge(0x10_0001)));
    assert!(matches!(read_msg(&[0xff, 0xff, 0xff, 0xff]), ReadStep::TooLarge(u32::MAX)));
}

#[test]
fn a_refused_length_is_named() {
    let mut wire = vec![0x00, 0x10, 0x00, 0x01];
    assert_eq!(read_msg(&wire).message().as_deref(), Some("header too large: 1048577 bytes"));
    wire.extend(vec![0u8; 1_048_577]);
    assert_eq!(read_msg(&wire).message().as_deref(), Some("header too large: 1048577 bytes"));
    assert_eq!(read_msg(&[0x00, 0x10, 0x00, 0x00]).message(), None);
    assert_eq!(read_msg(&[0, 0, 0, 0]).message(), None);
}
