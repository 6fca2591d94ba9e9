//! Line assembly, formatting and session state for a small serial terminal.

pub mod format;
pub mod linebuf;
pub mod numbers;
pub mod serial;
pub mod session;
pub mod text;

pub use format::{format_timestamp, ClockTime, LineEnding};
pub use linebuf::LineAssembler;
pub use numbers::{decimal_text, parse_baud_rate};
pub use serial::{
    open_failure_message, prepare_failure_message, reader_step, sort_port_names,
    write_failure_message, ReadOutcome, SerialEvent,
};
pub use session::{BaudApp, BAUD_RATES};
