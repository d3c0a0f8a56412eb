//! A quote-collecting chat bot: the commands it understands, the quote
//! store it keeps on disk, and the replies it decides on.

pub mod text;
pub mod order;
pub mod file_data;
pub mod codec;
pub mod command;
pub mod keyboard;
pub mod process;
pub mod terminal;
