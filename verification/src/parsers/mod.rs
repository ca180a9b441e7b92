pub mod general;
pub mod macros;
pub mod nana;
