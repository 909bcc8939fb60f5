use vstd::prelude::*;

pub mod embed;
pub mod extract;
pub mod frame;
pub mod grid;
pub mod laws;
pub mod naming;
pub mod pairs;

pub use embed::embed_bytes;
pub use extract::{extract_payload, header_is_clear};
pub use frame::{frame_message, open_text, text_of_bytes, TextError};
pub use grid::{
    check_capacity, read_from_image, read_payload, write_to_image, CapacityError, PixelGrid,
    ReadError, ReadMode,
};
pub use naming::output_file_name;

verus! {

/// Number of zero bytes placed before and after a message.
pub const PADDING_LENGTH: usize = 8;

} // verus!
