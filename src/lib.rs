//! Desktop activity logging: frame continuity decisions, the on-disk record
//! format with in-place correction of the last end timestamp, and the small
//! parsers and date rules around them.

pub mod frame;
pub mod record;
pub mod tracker;
pub mod laws;
pub mod xprop;
pub mod days;
pub mod app_info;
