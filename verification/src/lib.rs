//! Translation between the line-oriented control protocol of a mixing
//! console and Open Sound Control messages, with the decisions of a bridge
//! that carries the one over to the other.
//!
//! A line of the console is a verb and tokens, split at spaces outside
//! double quotes; a message is an address and typed arguments. Floats are
//! held as the decimal literals that write them, so that nothing here
//! computes with floating-point numbers.

pub mod bridge;
pub mod error;
pub mod framer;
pub mod laws;
pub mod message;
pub mod number;
pub mod split;
pub mod text;
pub mod value;

pub use bridge::{
    on_osc_datagram, on_rcp_line, on_rcp_read, on_rcp_text, Datagram, DatagramOutcome,
    LineOutcome, ReadStep,
};
pub use error::TranslateError;
pub use framer::LineFramer;
pub use message::{osc_to_rcp, rcp_to_osc, OscMessage};
pub use split::split_respecting_quotes;
pub use value::{osc_to_rcp_arg, rcp_to_osc_type, FloatLiteral, TypedValue};
