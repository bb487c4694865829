//! The hardware link: the command vocabulary that attached hardware sends,
//! the canned replies, and the per-channel handshake state machine.

use vstd::prelude::*;
use crate::frame::{encode_frame, is_frame_for, next_seq, xor_all, Pack, CHANNEL_CELLS, SEQ_INDEX};

verus! {

/// Query of the sync board's version.
pub const OP_SYNC_BOARD_VERSION: u8 = 0xA0;

/// Next block of a chunked read.
pub const OP_NEXT_READ: u8 = 0x72;

/// Query of the unit board's version.
pub const OP_UNIT_BOARD_VERSION: u8 = 0xA8;

/// First undocumented query.
pub const OP_PROBE_A: u8 = 0xA2;

/// Second undocumented query.
pub const OP_PROBE_B: u8 = 0x94;

/// End of the handshake: start sending frames.
pub const OP_START_AUTO_SCAN: u8 = 0xC9;

/// Start of a configuration write by the host.
pub const OP_BEGIN_WRITE: u8 = 0x77;

/// Next chunk of a configuration write by the host.
pub const OP_NEXT_WRITE: u8 = 0x20;

/// Marker of malformed input.
pub const OP_BAD_INPUT: u8 = 0x9A;

/// Position, in a next-read message whose byte 0 is the opcode, of the byte
/// that selects the block. The position is fixed: byte 3.
pub const READ_SELECTOR_INDEX: usize = 3;

/// Selector of the first read block.
pub const SELECT_BLOCK_1: u8 = 0x30;

/// Selector of the second read block.
pub const SELECT_BLOCK_2: u8 = 0x31;

/// Selector of the third read block.
pub const SELECT_BLOCK_3: u8 = 0x33;

/// Sync board version, "190523".
pub const SYNC_BOARD_VERSION: [u8; 6] = [49, 57, 48, 53, 50, 51];

/// Unit board version, "190514".
pub const UNIT_BOARD_VERSION: [u8; 6] = [49, 57, 48, 53, 49, 52];

/// Times the unit board version repeats in its reply.
pub const UNIT_VERSION_REPEAT: usize = 6;

/// Trailer of the sync board version reply (",").
pub const SYNC_BOARD_TRAILER: u8 = 44;

/// Side marker of the right channel ("R").
pub const SIDE_MARKER_RIGHT: u8 = 82;

/// Side marker of the left channel ("L").
pub const SIDE_MARKER_LEFT: u8 = 76;

/// Closing byte of the unit board reply on the right channel.
pub const UNIT_SUM_RIGHT: u8 = 118;

/// Closing byte of the unit board reply on the left channel.
pub const UNIT_SUM_LEFT: u8 = 104;

/// Reply to the first undocumented query.
pub const PROBE_A_REPLY: [u8; 3] = [162, 63, 29];

/// Reply to the second undocumented query.
pub const PROBE_B_REPLY: [u8; 3] = [148, 0, 20];

/// Acknowledgement of the start of auto scan.
pub const AUTO_SCAN_REPLY: [u8; 3] = [201, 0, 73];

/// First read block: sixteen numbers, five characters each
/// ("    0    0    1    2    3    4    5   15   15   15   15   15   15   11   11   11").
pub const READ_BLOCK_1: [u8; 80] = [
    32, 32, 32, 32, 48, 32, 32, 32, 32, 48, 32, 32, 32, 32, 49, 32, 32, 32, 32, 50, 32, 32, 32, 32,
    51, 32, 32, 32, 32, 52, 32, 32, 32, 32, 53, 32, 32, 32, 49, 53, 32, 32, 32, 49, 53, 32, 32, 32,
    49, 53, 32, 32, 32, 49, 53, 32, 32, 32, 49, 53, 32, 32, 32, 49, 53, 32, 32, 32, 49, 49, 32, 32,
    32, 49, 49, 32, 32, 32, 49, 49,
];

/// Second read block
/// ("   11   11   11  128  103  103  115  138  127  103  105  111  126  113   95  100").
pub const READ_BLOCK_2: [u8; 80] = [
    32, 32, 32, 49, 49, 32, 32, 32, 49, 49, 32, 32, 32, 49, 49, 32, 32, 49, 50, 56, 32, 32, 49, 48,
    51, 32, 32, 49, 48, 51, 32, 32, 49, 49, 53, 32, 32, 49, 51, 56, 32, 32, 49, 50, 55, 32, 32, 49,
    48, 51, 32, 32, 49, 48, 53, 32, 32, 49, 49, 49, 32, 32, 49, 50, 54, 32, 32, 49, 49, 51, 32, 32,
    32, 57, 53, 32, 32, 49, 48, 48,
];

/// Third read block
/// ("  101  115   98   86   76   67   68   48  117    0   82  154    0    6   35    4").
pub const READ_BLOCK_3: [u8; 80] = [
    32, 32, 49, 48, 49, 32, 32, 49, 49, 53, 32, 32, 32, 57, 56, 32, 32, 32, 56, 54, 32, 32, 32, 55,
    54, 32, 32, 32, 54, 55, 32, 32, 32, 54, 56, 32, 32, 32, 52, 56, 32, 32, 49, 49, 55, 32, 32, 32,
    32, 48, 32, 32, 32, 56, 50, 32, 32, 49, 53, 52, 32, 32, 32, 32, 48, 32, 32, 32, 32, 54, 32, 32,
    32, 51, 53, 32, 32, 32, 32, 52,
];

/// The two physical channels. The right one carries cells 120 to 239, the
/// left one cells 0 to 119.
#[derive(Clone, Copy, Debug, PartialEq, Eq, Structural)]
pub enum ChannelSide {
    Left,
    Right,
}

/// Handshake state of one channel.
#[derive(Clone, Copy, Debug, PartialEq, Eq, Structural)]
pub enum HandshakeState {
    Handshaking,
    Active,
}

/// What a message's first byte asks for.
#[derive(Clone, Copy, Debug, PartialEq, Eq, Structural)]
pub enum Command {
    SyncBoardVersion,
    NextRead,
    UnitBoardVersion,
    ProbeA,
    ProbeB,
    StartAutoScan,
    BeginWrite,
    NextWrite,
    BadInput,
    Other,
}

/// The command that opcode `b` stands for.
pub open spec fn command_of(b: u8) -> Command {
    if b == OP_SYNC_BOARD_VERSION {
        Command::SyncBoardVersion
    } else if b == OP_NEXT_READ {
        Command::NextRead
    } else if b == OP_UNIT_BOARD_VERSION {
        Command::UnitBoardVersion
    } else if b == OP_PROBE_A {
        Command::ProbeA
    } else if b == OP_PROBE_B {
        Command::ProbeB
    } else if b == OP_START_AUTO_SCAN {
        Command::StartAutoScan
    } else if b == OP_BEGIN_WRITE {
        Command::BeginWrite
    } else if b == OP_NEXT_WRITE {
        Command::NextWrite
    } else if b == OP_BAD_INPUT {
        Command::BadInput
    } else {
        Command::Other
    }
}

/// The state that a command sets, if any: every handshake command
/// (re)asserts `Handshaking`, the start of auto scan sets `Active`, the rest
/// leave the state alone.
pub open spec fn command_state(c: Command) -> Option<HandshakeState> {
    match c {
        Command::SyncBoardVersion | Command::NextRead | Command::UnitBoardVersion | Command::ProbeA
        | Command::ProbeB | Command::BadInput => Some(HandshakeState::Handshaking),
        Command::StartAutoScan => Some(HandshakeState::Active),
        _ => None,
    }
}

/// Commands that belong to the handshake and set `Handshaking`.
pub open spec fn is_handshake_opcode(b: u8) -> bool {
    command_state(command_of(b)) == Some(HandshakeState::Handshaking)
}

/// The block that a next-read selector asks for, if it is one of the three.
pub open spec fn read_block(sel: u8) -> Option<Seq<u8>> {
    if sel == SELECT_BLOCK_1 {
        Some(READ_BLOCK_1@)
    } else if sel == SELECT_BLOCK_2 {
        Some(READ_BLOCK_2@)
    } else if sel == SELECT_BLOCK_3 {
        Some(READ_BLOCK_3@)
    } else {
        None
    }
}

/// The selector byte of a next-read message; a message too short to hold
/// one selects nothing that exists.
pub open spec fn read_selector(msg: Seq<u8>) -> u8 {
    if msg.len() > READ_SELECTOR_INDEX {
        msg[READ_SELECTOR_INDEX as int]
    } else {
        0
    }
}

/// `s` written `n` times in a row.
pub open spec fn repeated(s: Seq<u8>, n: nat) -> Seq<u8>
    decreases n,
{
    if n == 0 {
        Seq::empty()
    } else {
        repeated(s, (n - 1) as nat) + s
    }
}

/// The side marker of a channel.
pub open spec fn side_marker(side: ChannelSide) -> u8 {
    match side {
        ChannelSide::Right => SIDE_MARKER_RIGHT,
        ChannelSide::Left => SIDE_MARKER_LEFT,
    }
}

/// The closing byte of a channel's unit board reply.
pub open spec fn unit_sum(side: ChannelSide) -> u8 {
    match side {
        ChannelSide::Right => UNIT_SUM_RIGHT,
        ChannelSide::Left => UNIT_SUM_LEFT,
    }
}

/// The reply that channel `side` owes to message `msg` (whose first byte is
/// the opcode), if any.
pub open spec fn reply_of(side: ChannelSide, msg: Seq<u8>) -> Option<Seq<u8>>
    recommends
        msg.len() > 0,
{
    match command_of(msg[0]) {
        Command::SyncBoardVersion => Some(
            seq![OP_SYNC_BOARD_VERSION] + SYNC_BOARD_VERSION@ + seq![SYNC_BOARD_TRAILER],
        ),
        Command::NextRead => match read_block(read_selector(msg)) {
            Some(b) => Some(b.push(xor_all(b))),
            None => None,
        },
        Command::UnitBoardVersion => Some(
            seq![OP_UNIT_BOARD_VERSION] + SYNC_BOARD_VERSION@ + seq![side_marker(side)] + repeated(
                UNIT_BOARD_VERSION@,
                UNIT_VERSION_REPEAT as nat,
            ) + seq![unit_sum(side)],
        ),
        Command::ProbeA => Some(PROBE_A_REPLY@),
        Command::ProbeB => Some(PROBE_B_REPLY@),
        Command::StartAutoScan => Some(AUTO_SCAN_REPLY@),
        _ => None,
    }
}

/// The bytes that an optional reply holds.
pub open spec fn bytes_view(o: Option<Vec<u8>>) -> Option<Seq<u8>> {
    match o {
        Some(v) => Some(v@),
        None => None,
    }
}

impl Command {
    /// The command that opcode `b` stands for.
    pub fn parse(b: u8) -> (r: Command)
        ensures
            r == command_of(b),
    {
        match b {
            OP_SYNC_BOARD_VERSION => Command::SyncBoardVersion,
            OP_NEXT_READ => Command::NextRead,
            OP_UNIT_BOARD_VERSION => Command::UnitBoardVersion,
            OP_PROBE_A => Command::ProbeA,
            OP_PROBE_B => Command::ProbeB,
            OP_START_AUTO_SCAN => Command::StartAutoScan,
            OP_BEGIN_WRITE => Command::BeginWrite,
            OP_NEXT_WRITE => Command::NextWrite,
            OP_BAD_INPUT => Command::BadInput,
            _ => Command::Other,
        }
    }

    /// The handshake state that this command sets, if any.
    pub fn next_state(self) -> (r: Option<HandshakeState>)
        ensures
            r == command_state(self),
    {
        match self {
            Command::SyncBoardVersion | Command::NextRead | Command::UnitBoardVersion
            | Command::ProbeA | Command::ProbeB | Command::BadInput => Some(
                HandshakeState::Handshaking,
            ),
            Command::StartAutoScan => Some(HandshakeState::Active),
            _ => None,
        }
    }
}

/// Appends `bytes` to `buf`.
fn append(buf: &mut Vec<u8>, bytes: &[u8])
    ensures
        final(buf)@ == old(buf)@ + bytes@,
{
    let mut i: usize = 0;
    while i < bytes.len()
        invariant
            i <= bytes@.len(),
            buf@ == old(buf)@ + bytes@.take(i as int),
        decreases bytes@.len() - i,
    {
        buf.push(bytes[i]);
        i += 1;
        assert(buf@ =~= old(buf)@ + bytes@.take(i as int));
    }
    assert(bytes@.take(i as int) =~= bytes@);
}

/// A vector that holds `bytes`.
fn bytes_of(bytes: &[u8]) -> (r: Vec<u8>)
    ensures
        r@ == bytes@,
{
    let mut buf: Vec<u8> = Vec::new();
    append(&mut buf, bytes);
    assert(buf@ =~= bytes@);
    buf
}

/// `bytes` followed by their checksum.
fn with_checksum(bytes: &[u8]) -> (r: Vec<u8>)
    ensures
        r@ == bytes@.push(xor_all(bytes@)),
{
    let mut buf: Vec<u8> = Vec::new();
    append(&mut buf, bytes);
    let sum = crate::frame::checksum(bytes);
    buf.push(sum);
    assert(buf@ =~= bytes@.push(xor_all(bytes@)));
    buf
}

/// The state change and the reply that channel `side` owes to message
/// `data`, whose first byte is the opcode.
pub fn make_resp(side: ChannelSide, data: &[u8]) -> (r: (Option<HandshakeState>, Option<Vec<u8>>))
    requires
        data@.len() > 0,
    ensures
        r.0 == command_state(command_of(data@[0])),
        bytes_view(r.1) == reply_of(side, data@),
{
    let command = Command::parse(data[0]);
    let state = command.next_state();
    let reply: Option<Vec<u8>> = match command {
        Command::SyncBoardVersion => {
            let mut buf: Vec<u8> = Vec::new();
            buf.push(OP_SYNC_BOARD_VERSION);
            append(&mut buf, SYNC_BOARD_VERSION.as_slice());
            buf.push(SYNC_BOARD_TRAILER);
            Some(buf)
        },
        Command::NextRead => {
            let sel: u8 = if data.len() > READ_SELECTOR_INDEX {
                data[READ_SELECTOR_INDEX]
            } else {
                0
            };
            if sel == SELECT_BLOCK_1 {
                Some(with_checksum(READ_BLOCK_1.as_slice()))
            } else if sel == SELECT_BLOCK_2 {
                Some(with_checksum(READ_BLOCK_2.as_slice()))
            } else if sel == SELECT_BLOCK_3 {
                Some(with_checksum(READ_BLOCK_3.as_slice()))
            } else {
                None
            }
        },
        Command::UnitBoardVersion => {
            let mut buf: Vec<u8> = Vec::new();
            buf.push(OP_UNIT_BOARD_VERSION);
            append(&mut buf, SYNC_BOARD_VERSION.as_slice());
            buf.push(
                match side {
                    ChannelSide::Right => SIDE_MARKER_RIGHT,
                    ChannelSide::Left => SIDE_MARKER_LEFT,
                },
            );
            let ghost head = buf@;
            let mut n: usize = 0;
            while n < UNIT_VERSION_REPEAT
                invariant
                    n <= UNIT_VERSION_REPEAT,
                    buf@ == head + repeated(UNIT_BOARD_VERSION@, n as nat),
                decreases UNIT_VERSION_REPEAT - n,
            {
                append(&mut buf, UNIT_BOARD_VERSION.as_slice());
                n += 1;
                assert(buf@ =~= head + repeated(UNIT_BOARD_VERSION@, n as nat));
            }
            buf.push(
                match side {
                    ChannelSide::Right => UNIT_SUM_RIGHT,
                    ChannelSide::Left => UNIT_SUM_LEFT,
                },
            );
            Some(buf)
        },
        Command::ProbeA => Some(bytes_of(PROBE_A_REPLY.as_slice())),
        Command::ProbeB => Some(bytes_of(PROBE_B_REPLY.as_slice())),
        Command::StartAutoScan => Some(bytes_of(AUTO_SCAN_REPLY.as_slice())),
        _ => None,
    };
    proof {
        if command == Command::SyncBoardVersion || command == Command::UnitBoardVersion {
            let v = reply->Some_0;
            assert(v@ =~= reply_of(side, data@)->Some_0);
        }
    }
    (state, reply)
}

/// The state of a channel in state `s` after message `msg`; an empty message
/// changes nothing.
pub open spec fn next_state(s: HandshakeState, msg: Seq<u8>) -> HandshakeState {
    if msg.len() == 0 {
        s
    } else {
        match command_state(command_of(msg[0])) {
            Some(t) => t,
            None => s,
        }
    }
}

/// The state of a channel in state `s` after the messages `msgs`, in order.
pub open spec fn state_after(s: HandshakeState, msgs: Seq<Seq<u8>>) -> HandshakeState
    decreases msgs.len(),
{
    if msgs.len() == 0 {
        s
    } else {
        next_state(state_after(s, msgs.drop_last()), msgs.last())
    }
}

/// The cells of a 240-cell snapshot that channel `side` carries.
pub open spec fn channel_cells(snapshot: Seq<bool>, side: ChannelSide) -> Seq<bool> {
    match side {
        ChannelSide::Right => snapshot.subrange(CHANNEL_CELLS as int, 2 * CHANNEL_CELLS as int),
        ChannelSide::Left => snapshot.subrange(0, CHANNEL_CELLS as int),
    }
}

/// One physical channel: its side, its handshake state, and the counter of
/// the last frame that it sent.
pub struct LinkSession {
    pub side: ChannelSide,
    pub state: HandshakeState,
    pub sequence: u8,
}

impl LinkSession {
    /// A channel that has not been through the handshake yet.
    pub fn new(side: ChannelSide) -> (r: LinkSession)
        ensures
            r.side == side,
            r.state == HandshakeState::Handshaking,
            r.sequence == 0,
    {
        LinkSession { side, state: HandshakeState::Handshaking, sequence: 0 }
    }

    /// Takes one message read from the channel: applies the state change
    /// that it asks for and returns the reply to write back, if any. An empty
    /// message is ignored.
    pub fn handle_message(&mut self, data: &[u8]) -> (r: Option<Vec<u8>>)
        ensures
            final(self).side == old(self).side,
            final(self).sequence == old(self).sequence,
            final(self).state == next_state(old(self).state, data@),
            bytes_view(r) == if data@.len() == 0 {
                None
            } else {
                reply_of(old(self).side, data@)
            },
    {
        if data.len() == 0 {
            return None;
        }
        let (state, reply) = make_resp(self.side, data);
        if let Some(s) = state {
            self.state = s;
        }
        reply
    }

    /// The frame to send this cycle: once the handshake is over, the
    /// channel's half of `snapshot` under the next counter value; before
    /// that, nothing.
    pub fn poll_frame(&mut self, snapshot: &[bool]) -> (r: Option<Pack>)
        requires
            snapshot@.len() == 2 * CHANNEL_CELLS,
        ensures
            final(self).side == old(self).side,
            final(self).state == old(self).state,
            old(self).state == HandshakeState::Handshaking ==> r is None && final(self).sequence
                == old(self).sequence,
            old(self).state == HandshakeState::Active ==> r is Some && is_frame_for(
                channel_cells(snapshot@, old(self).side),
                old(self).sequence,
                r->Some_0@,
            ) && final(self).sequence == next_seq(old(self).sequence),
    {
        if self.state == HandshakeState::Handshaking {
            return None;
        }
        let offset: usize = match self.side {
            ChannelSide::Right => CHANNEL_CELLS,
            ChannelSide::Left => 0,
        };
        let mut local: Vec<bool> = Vec::new();
        let mut i: usize = 0;
        while i < CHANNEL_CELLS
            invariant
                i <= CHANNEL_CELLS,
                snapshot@.len() == 2 * CHANNEL_CELLS,
                offset == CHANNEL_CELLS || offset == 0,
                local@ == snapshot@.subrange(offset as int, offset + i),
            decreases CHANNEL_CELLS - i,
        {
            local.push(snapshot[offset + i]);
            i += 1;
            assert(local@ =~= snapshot@.subrange(offset as int, offset + i));
        }
        assert(local@ =~= channel_cells(snapshot@, self.side));
        let frame = encode_frame(local.as_slice(), self.sequence);
        self.sequence = frame[SEQ_INDEX];
        Some(frame)
    }
}

/// Two consecutive frames of a channel, the second sent under the counter
/// that the first left behind: its counter is one more modulo 128, so the two
/// never share a counter value.
pub proof fn lemma_consecutive_frames(
    first: Seq<bool>,
    second: Seq<bool>,
    prev: u8,
    f1: Seq<u8>,
    f2: Seq<u8>,
)
    requires
        prev < 128,
        is_frame_for(first, prev, f1),
        is_frame_for(second, next_seq(prev), f2),
    ensures
        f2[SEQ_INDEX as int] == (f1[SEQ_INDEX as int] + 1) % 128,
        f2[SEQ_INDEX as int] != f1[SEQ_INDEX as int],
{
}

/// A channel reaches `Active` exactly once through the handshake: after any
/// run of handshake messages it is `Handshaking` at every step, and the start
/// of auto scan that follows makes it `Active`.
pub proof fn lemma_handshake_then_scan(s: HandshakeState, msgs: Seq<Seq<u8>>, scan: Seq<u8>)
    requires
        forall|i: int|
            0 <= i < msgs.len() ==> (#[trigger] msgs[i]).len() > 0 && is_handshake_opcode(
                msgs[i][0],
            ),
        scan.len() > 0,
        scan[0] == OP_START_AUTO_SCAN,
    ensures
        forall|k: int|
            1 <= k <= msgs.len() ==> #[trigger] state_after(s, msgs.take(k))
                == HandshakeState::Handshaking,
        state_after(s, msgs.push(scan)) == HandshakeState::Active,
{
    assert forall|k: int| 1 <= k <= msgs.len() implies #[trigger] state_after(s, msgs.take(k))
        == HandshakeState::Handshaking by {
        let m = msgs.take(k).last();
        assert(m == msgs[k - 1]);
    }
    assert(msgs.push(scan).last() == scan);
}

/// A handshake message sent to an `Active` channel puts it back into
/// `Handshaking`.
pub proof fn lemma_handshake_reenters(msg: Seq<u8>)
    requires
        msg.len() > 0,
        is_handshake_opcode(msg[0]),
    ensures
        next_state(HandshakeState::Active, msg) == HandshakeState::Handshaking,
{
}

} // verus!
