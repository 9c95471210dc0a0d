//! The items that users of the crate generally need.
pub use crate::TwoSidedVec;
