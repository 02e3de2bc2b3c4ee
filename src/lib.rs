//! Resolution of amateur-radio callsigns to their DXCC entity, CQ zone,
//! continent and location at a given point in time.

pub mod text;
pub mod clublog;
pub mod clublogquery;
pub mod call;
pub mod clublogmap;
