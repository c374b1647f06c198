pub mod cursor;
pub mod text;
