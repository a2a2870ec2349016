pub mod canvas;
pub mod hit;
pub mod ppm;
