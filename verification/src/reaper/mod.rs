pub mod bucket;
pub mod frontier;
pub mod member;
pub mod state;
pub mod wait;
