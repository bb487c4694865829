//! Touch-surface to cell mapping for a 240-cell circular playfield, and the
//! byte protocol that forwards the cell state to the playfield's hardware link.

pub mod aggregate;
pub mod config;
pub mod frame;
pub mod geometry;
pub mod protocol;
pub mod state;
pub mod surface;
pub mod touch;
pub mod util;

pub use aggregate::active_snapshot;
pub use config::{
    ConfigError, RingSetting, TouccaConfig, TouccaMode, TouccaRelativeConfig, TouccaTouchConfig,
    TouchSettings,
};
pub use frame::{checksum, encode_frame, prepare, Pack};
pub use protocol::{make_resp, ChannelSide, Command, HandshakeState, LinkSession};
pub use state::TouchState;
pub use surface::WindowRect;
pub use touch::{PointerInfos, TouchService};
pub use util::{hi_word, lo_word, DebugUnwrap, WinDebugWriter};
