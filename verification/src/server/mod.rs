pub mod broker;
pub mod clients;

pub use broker::{
    accept_action, relay_step, server_input_step, AcceptAction, AcceptOutcome, RelayStep,
    SHUTDOWN_NOTICE,
};
pub use clients::{ClientId, ClientRegistry};
