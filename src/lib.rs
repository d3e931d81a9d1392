pub mod draft;
pub mod mention;
pub mod pipeline;
pub mod store;
