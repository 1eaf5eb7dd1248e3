//! Log-record writer core: size-based file rotation, record serialisation for
//! flat and table-structured formats, and a single-worker dispatch queue.
//!
//! Every function here is pure with respect to the file system, the network
//! and the screen: it computes what has to be written, printed or sent, and
//! the caller carries it out.

pub mod clock;
pub mod decimal;
pub mod document;
pub mod error;
pub mod file_manager;
pub mod ini;
pub mod log;
pub mod logger;
pub mod path_order;
pub mod text;
pub mod thread;
