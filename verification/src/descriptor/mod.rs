//! The descriptors themselves.

pub mod bare;
pub mod pkh;

pub use bare::Bare;
pub use pkh::Pkh;
