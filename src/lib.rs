//! A software triangle rasterizer over integer device coordinates.
//!
//! Triangles arrive with their vertices already on the pixel grid. Each is scan-converted
//! with the long-edge / short-edge walk. Each row runs between the exact places where its two
//! edges cross it, held as fractions; columns run from the left crossing rounded down up to,
//! not including, the right crossing rounded down. Depth and attributes are blended along the
//! edges and then along each row, measured from those exact crossings, in integer arithmetic
//! that rounds down. Fragments may be depth-tested before they are shaded and written. Writes
//! outside a surface are discarded.
pub mod draw;
pub mod math;
pub mod mesh;
pub mod pixelformat;
pub mod shader;
pub mod surface;
pub mod texture;
pub mod varying;
pub mod vertex;
