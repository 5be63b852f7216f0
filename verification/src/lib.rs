//! A reversible codec between byte sequences and walking paths on the Earth's
//! surface. Each byte becomes one geodesic segment — a whole-meter distance
//! and a whole-degree bearing applied to a running position — and consecutive
//! coordinates of such a path measure back to the original bytes.

pub mod codec;
pub mod diff;
pub mod path;
pub mod tracker;
