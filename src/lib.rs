pub mod buffer;
pub mod buffer_aux;
pub mod error;
pub mod reader;
pub mod utils;
pub mod writer;
