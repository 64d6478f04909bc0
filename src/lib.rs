//! Integer core of a tiled path tracer: the partition of the image into
//! tiles, the shared work list that hands tiles out to workers, the frame
//! buffer that workers write finished tiles into, and the policy that ends
//! each light path.

pub mod tile;
pub mod rgb_buffer;
pub mod frame;
pub mod schedule;
pub mod path;
