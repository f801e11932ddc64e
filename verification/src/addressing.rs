//! The address expression of a command line: its characters, its tokens and
//! the line range that it denotes.

pub mod chars;
pub mod decimal;
pub mod input;
pub mod laws;
pub mod resolve;
pub mod scan;
pub mod text_laws;
pub mod token;

pub use input::EditorInput;
pub use resolve::set_addresses;
pub use scan::extract_addresses;
pub use token::{AddressError, AddressErrorView, Value};
