pub mod atlas;
pub mod cache;
pub mod font;
pub mod fonts;
