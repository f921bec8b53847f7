//! FractalX: the rules behind a fractal explorer.

pub mod attractor;
pub mod bigfloat;
pub mod controls;
pub mod deep;
pub mod density;
pub mod explorer;
pub mod export;
pub mod float;
pub mod ifs;
pub mod journal;
pub mod julia;
pub mod ladder;
pub mod lsystem;
pub mod mandelbrot;
pub mod palette;
pub mod progress;
pub mod raster;
pub mod session;
pub mod terrain;
pub mod text;
