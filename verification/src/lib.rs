pub mod derived_unit;
pub mod dst;
pub mod homogen;
pub mod text;
pub mod transform;
pub mod unit;
pub mod unit_text;
pub mod util;
pub mod units;
pub mod interactions;
pub mod imshow;
pub mod three;
pub mod roi;
pub mod export;
pub mod charpoly;
pub mod zscale;
pub mod input_state;
pub mod download;
pub mod file_explorer;
