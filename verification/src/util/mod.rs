pub mod vec2;
