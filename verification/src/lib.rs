pub mod decimal;
pub mod text;
pub mod values;
pub mod enums;
pub mod xml;
pub mod digest;
pub mod styles;
pub mod column;
pub mod data_field;
pub mod reading;
pub mod differential_formats;
pub mod fills;
pub mod mru_colors;
pub mod shared_string_table;
