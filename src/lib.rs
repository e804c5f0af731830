//! Teardown planning for records whose fields hold externally owned
//! resources: which fields are released, in what order, and what is wrong
//! with the annotations that steer it.

pub mod record;
pub mod validate;
pub mod order;
pub mod analyze;
pub mod laws;
