pub mod primitive;
pub mod type_block;
