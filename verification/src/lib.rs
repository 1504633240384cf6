pub mod cache;
pub mod dictionary;
pub mod edit_distance;
pub mod pipeline;
pub mod spell_check;
pub mod suggest;
