pub mod hex_reader;
pub mod line_counter;
pub mod text_utilities;
