pub mod cell;
pub mod wall;
