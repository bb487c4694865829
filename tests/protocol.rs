use toucca::frame::checksum;
use toucca::protocol::{
    make_resp, ChannelSide, Command, HandshakeState, LinkSession, AUTO_SCAN_REPLY, PROBE_A_REPLY,
    PROBE_B_REPLY, READ_BLOCK_1, READ_BLOCK_2, READ_BLOCK_3,
};

const READ_1: &str =
    "    0    0    1    2    3    4    5   15   15   15   15   15   15   11   11   11";
const READ_2: &str =
    "   11   11   11  128  103  103  115  138  127  103  105  111  126  113   95  100";
const READ_3: &str =
    "  101  115   98   86   76   67   68   48  117    0   82  154    0    6   35    4";

#[test]
fn read_blocks_hold_their_text() {
    assert_eq!(&READ_BLOCK_1[..], READ_1.as_bytes());
    assert_eq!(&READ_BLOCK_2[..], READ_2.as_bytes());
    assert_eq!(&READ_BLOCK_3[..], READ_3.as_bytes());
}

#[test]
fn sync_board_version_reply() {
    let (state, reply) = make_resp(ChannelSide::Left, &[0xA0]);
    assert_eq!(state, Some(HandshakeState::Handshaking));
    let mut expected = vec![0xA0];
    expected.extend(b"190523");
    expected.push(44);
    assert_eq!(reply, Some(expected));
}

#[test]
fn next_read_selects_block_by_fourth_byte() {
    for (sel, text, sum) in [(0x30u8, READ_1, 17u8), (0x31, READ_2, 12), (0x33, READ_3, 1)] {
        let (state, reply) = make_resp(ChannelSide::Right, &[0x72, 0, 0, sel]);
        assert_eq!(state, Some(HandshakeState::Handshaking));
        let mut expected = text.as_bytes().to_vec();
        expected.push(sum);
        assert_eq!(checksum(text.as_bytes()), sum);
        assert_eq!(reply, Some(expected));
    }
}

#[test]
fn next_read_with_unknown_or_missing_selector_has_no_reply() {
    assert_eq!(make_resp(ChannelSide::Left, &[0x72, 0, 0, 0x32]), (Some(HandshakeState::Handshaking), None));
    assert_eq!(make_resp(ChannelSide::Left, &[0x72, 0x30, 0x30]), (Some(HandshakeState::Handshaking), None));
    assert_eq!(make_resp(ChannelSide::Left, &[0x72]), (Some(HandshakeState::Handshaking), None));
}

#[test]
fn unit_board_version_reply_per_side() {
    let mut right = vec![0xA8];
    right.extend(b"190523");
    right.push(b'R');
    for _ in 0..6 {
        right.extend(b"190514");
    }
    right.push(118);
    assert_eq!(right.len(), 45);
    assert_eq!(make_resp(ChannelSide::Right, &[0xA8]), (Some(HandshakeState::Handshaking), Some(right.clone())));
    let mut left = right.clone();
    left[7] = b'L';
    left[44] = 104;
    assert_eq!(make_resp(ChannelSide::Left, &[0xA8, 1, 2]), (Some(HandshakeState::Handshaking), Some(left)));
}

#[test]
fn probe_and_scan_replies() {
    assert_eq!(make_resp(ChannelSide::Left, &[0xA2]), (Some(HandshakeState::Handshaking), Some(vec![162, 63, 29])));
    assert_eq!(make_resp(ChannelSide::Left, &[0x94]), (Some(HandshakeState::Handshaking), Some(vec![148, 0, 20])));
    assert_eq!(make_resp(ChannelSide::Left, &[0xC9]), (Some(HandshakeState::Active), Some(vec![201, 0, 73])));
    assert_eq!(PROBE_A_REPLY, [162, 63, 29]);
    assert_eq!(PROBE_B_REPLY, [148, 0, 20]);
    assert_eq!(AUTO_SCAN_REPLY, [201, 0, 73]);
}

#[test]
fn writes_bad_input_and_unknown_opcodes() {
    assert_eq!(make_resp(ChannelSide::Left, &[0x77, 1, 2]), (None, None));
    assert_eq!(make_resp(ChannelSide::Left, &[0x20]), (None, None));
    assert_eq!(make_resp(ChannelSide::Left, &[0x9A]), (Some(HandshakeState::Handshaking), None));
    assert_eq!(make_resp(ChannelSide::Left, &[0x00]), (None, None));
    assert_eq!(make_resp(ChannelSide::Left, &[0xFF, 0xC9]), (None, None));
}

#[test]
fn command_table() {
    assert_eq!(Command::parse(0xA0), Command::SyncBoardVersion);
    assert_eq!(Command::parse(0x72), Command::NextRead);
    assert_eq!(Command::parse(0xA8), Command::UnitBoardVersion);
    assert_eq!(Command::parse(0xA2), Command::ProbeA);
    assert_eq!(Command::parse(0x94), Command::ProbeB);
    assert_eq!(Command::parse(0xC9), Command::StartAutoScan);
    assert_eq!(Command::parse(0x77), Command::BeginWrite);
    assert_eq!(Command::parse(0x20), Command::NextWrite);
    assert_eq!(Command::parse(0x9A), Command::BadInput);
    assert_eq!(Command::parse(0x13), Command::Other);
    assert_eq!(Command::StartAutoScan.next_state(), Some(HandshakeState::Active));
    assert_eq!(Command::BadInput.next_state(), Some(HandshakeState::Handshaking));
    assert_eq!(Command::NextWrite.next_state(), None);
}

#[test]
fn handshake_reaches_active_once_then_reenters() {
    let mut session = LinkSession::new(ChannelSide::Right);
    assert_eq!(session.state, HandshakeState::Handshaking);
    for msg in [&[0xA0u8][..], &[0x72, 0, 0, 0x30], &[0xA8], &[0xA2], &[0x94], &[0x9A]] {
        session.handle_message(msg);
        assert_eq!(session.state, HandshakeState::Handshaking);
    }
    assert_eq!(session.handle_message(&[0xC9]), Some(vec![201, 0, 73]));
    assert_eq!(session.state, HandshakeState::Active);
    assert_eq!(session.handle_message(&[0x77]), None);
    assert_eq!(session.state, HandshakeState::Active);
    assert_eq!(session.handle_message(&[]), None);
    assert_eq!(session.state, HandshakeState::Active);
    session.handle_message(&[0xA2]);
    assert_eq!(session.state, HandshakeState::Handshaking);
}

#[test]
fn frames_only_after_handshake() {
    let snapshot = vec![true; 240];
    let mut session = LinkSession::new(ChannelSide::Left);
    assert_eq!(session.poll_frame(&snapshot), None);
    assert_eq!(session.sequence, 0);
    session.handle_message(&[0xC9]);
    let frame = session.poll_frame(&snapshot).unwrap();
    assert_eq!(frame[0], 129);
    assert_eq!(frame[34], 1);
    assert_eq!(session.sequence, 1);
}

#[test]
fn frame_carries_its_channel_half() {
    let mut snapshot = vec![false; 240];
    snapshot[0] = true;
    snapshot[120] = true;
    snapshot[121] = true;
    let mut left = LinkSession::new(ChannelSide::Left);
    let mut right = LinkSession::new(ChannelSide::Right);
    left.handle_message(&[0xC9]);
    right.handle_message(&[0xC9]);
    let l = left.poll_frame(&snapshot).unwrap();
    let r = right.poll_frame(&snapshot).unwrap();
    assert_eq!(l[1], 0b01);
    assert_eq!(r[1], 0b11);
}

#[test]
fn sequence_counts_modulo_128() {
    let snapshot = vec![false; 240];
    let mut session = LinkSession::new(ChannelSide::Right);
    session.handle_message(&[0xC9]);
    let mut last = session.sequence;
    for _ in 0..300 {
        let frame = session.poll_frame(&snapshot).unwrap();
        assert_eq!(frame[34], (last + 1) % 128);
        assert_ne!(frame[34], last);
        assert_eq!(frame[35], frame[..35].iter().fold(0, |a, b| a ^ b));
        last = frame[34];
    }
}
