pub mod protocol;
pub mod session;

pub use protocol::{is_valid_nickname, nickname_handshake, parse_nickname_handshake, NICK_PREFIX};
pub use session::{client_input_step, ConsoleStep};
