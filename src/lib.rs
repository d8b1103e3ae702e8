//! Contract interfaces: their declarations and operations, the consistency
//! check that reports every inconsistency, and the content-derived identity.

pub mod check;
pub mod encode;
pub mod fieldmap;
pub mod id;
pub mod iface;
pub mod stl;
