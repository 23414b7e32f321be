pub mod laws;
pub mod model;
pub mod repos;
pub mod update_list;
pub mod updates;
