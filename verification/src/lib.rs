//! Device-side clusters of a Matter node, with their behaviour stated and proved.

pub mod acl;
pub mod bounded;
pub mod clusters;
pub mod commissioning;
pub mod conformance;
pub mod crypto;
pub mod device;
pub mod dm;
pub mod error;
pub mod fields;
pub mod group;
pub mod im;
pub mod msg;
pub mod platform;
pub mod tlv;
pub mod walk;
