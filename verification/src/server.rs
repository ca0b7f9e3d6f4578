//! Serving captures as HLS: which streams there are, how they are fed, and
//! what a request is answered.

pub mod catalog;
pub mod laws;
pub mod manager;
pub mod reply;

pub use manager::Manager;
pub use reply::Reply;
