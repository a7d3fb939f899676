//! Locating the specular highlight of a calibration sphere in a burst of
//! photographs and describing the light rays it reflects, in exact integer
//! arithmetic.

pub mod codec;
pub mod convexity;
pub mod crop;
pub mod grid;
pub mod highlight;
pub mod lightsource;
pub mod multires;
pub mod numeric;
pub mod records;
pub mod registration;
pub mod session;
pub mod symmetry;
