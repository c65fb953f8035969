//! A compact publish/acknowledge message protocol: the wire codec for its two
//! packet kinds and the flow-controlled session that drives the codec over a
//! byte stream that may deliver frames in pieces.

pub mod buf;
pub mod codec;
pub mod decode;
pub mod encode;
pub mod error;
pub mod header;
pub mod laws;
pub mod load;
pub mod packet;
pub mod session;
pub mod window;
pub mod wire;

pub use codec::MqttCodec;
pub use decode::{assemble, mqtt_read, next_packet, read_mqtt_string};
pub use encode::{disassemble, mqtt_write};
pub use error::Error;
pub use header::{
    header_len, parse_fixed_header, write_remaining_length, FixedHeader, MAX_REMAINING_LENGTH,
};
pub use load::{generate_payload, generate_string, packets, Reader};
pub use packet::{Packet, PubAck, Publish};
pub use session::{Received, Session, State, BATCH_SIZE};
pub use window::{CreditWindow, WindowView};
