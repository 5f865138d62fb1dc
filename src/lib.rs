//! A decoder for flattened device tree blobs.
pub mod display;
pub mod lemmas;
pub mod parser;
pub mod util;

pub use display::display_node;
pub use parser::{DeviceTree, DeviceTreeHeader, DeviceTreeParser, Node, ParseError, Property, Tag};
pub use util::{from_utf8_safe, MiniStream, MiniStreamReadError};
